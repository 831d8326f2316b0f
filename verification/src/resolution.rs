//! Choosing an installed runtime for a model.
use vstd::prelude::*;
use vstd::string::*;

use crate::backend::RuntimeSelectionSource;
use crate::catalog::{judge, judged, AnswersView, RuntimeAnswers};
use crate::duplicate::{duplicate_list, duplicate_option, lemma_views_push, optional, views, Duplicate};
use crate::order::{
    compare_u64, lemma_text_order_chains, lemma_text_order_equal, lemma_text_order_flips,
    number_order, text_order, Order,
};
use crate::runtimes::{
    acquisition_order, acquisition_rank, combine_compatibility, CompatibilityView,
    InstalledRuntime, PackErrorView, RuntimeAcquisitionMethod, RuntimeCompatibility,
    RuntimePackError, RuntimeView,
};
use crate::selections::{selected_for, value_at, RuntimeSelections, SelectionsView};
use crate::sorting::{
    law_sorted, law_sorted_by_key, order_of, refines, sort, sorted, Precedes,
};
use crate::text::{cat2, cat3, cat4, cat5, cat6, compare_text, contains_text, join, joined, same};
use crate::updates::{
    compare_installed_recency_inner, compare_installed_recency_with_registry, recency, referenced,
    resolver_recency, RuntimeUpdatePreference,
};
use crate::versions::{law_versions_are_ordered, version_order};

verus! {

/// An installed runtime: whether it is of the newest lineage of its engine that is here, how it fits,
/// and what it is chosen for.
#[derive(Debug)]
pub struct InstalledRuntimeStatus {
    pub runtime: InstalledRuntime,
    pub latest_installed: bool,
    pub compatibility: RuntimeCompatibility,
    pub selected_for: Vec<String>,
}

#[verifier::ext_equal]
pub struct StatusView {
    pub runtime: RuntimeView,
    pub latest_installed: bool,
    pub compatibility: CompatibilityView,
    pub selected_for: Seq<Seq<char>>,
}

impl View for InstalledRuntimeStatus {
    type V = StatusView;

    open spec fn view(&self) -> StatusView {
        StatusView {
            runtime: self.runtime@,
            latest_installed: self.latest_installed,
            compatibility: self.compatibility@,
            selected_for: views(self.selected_for@),
        }
    }
}

impl Duplicate for InstalledRuntimeStatus {
    fn duplicate(&self) -> (result: InstalledRuntimeStatus) {
        InstalledRuntimeStatus {
            runtime: self.runtime.duplicate(),
            latest_installed: self.latest_installed,
            compatibility: self.compatibility.duplicate(),
            selected_for: duplicate_list(&self.selected_for),
        }
    }
}

/// A runtime that was found here, with what its engine says of it and how it fits the host.
#[derive(Debug)]
pub struct FoundRuntime {
    pub runtime: InstalledRuntime,
    pub answers: Option<RuntimeAnswers>,
    pub host: RuntimeCompatibility,
}

#[verifier::ext_equal]
pub struct FoundView {
    pub runtime: RuntimeView,
    pub answers: Option<AnswersView>,
    pub host: CompatibilityView,
}

impl View for FoundRuntime {
    type V = FoundView;

    open spec fn view(&self) -> FoundView {
        FoundView {
            runtime: self.runtime@,
            answers: optional(self.answers),
            host: self.host@,
        }
    }
}

/// How two runtimes are listed: by engine, then by variant, then the more recent first.
pub open spec fn listing_order(a: FoundView, b: FoundView) -> Order {
    text_order(a.runtime.manifest.identity.engine_id, b.runtime.manifest.identity.engine_id).or(
        text_order(a.runtime.manifest.identity.variant, b.runtime.manifest.identity.variant),
    ).or(resolver_recency(b.runtime, a.runtime))
}

impl Precedes for FoundRuntime {
    open spec fn before(a: FoundView, b: FoundView) -> bool {
        listing_order(a, b) == Order::Less
    }

    fn precedes(&self, other: &FoundRuntime) -> (result: bool) {
        let left = &self.runtime.manifest.identity;
        let right = &other.runtime.manifest.identity;
        match compare_text(left.engine_id.as_str(), right.engine_id.as_str()).and_next(
            compare_text(left.variant.as_str(), right.variant.as_str()),
        ).and_next(compare_installed_recency_with_registry(&other.runtime, &self.runtime)) {
            Order::Less => true,
            _ => false,
        }
    }
}

/// Whether no runtime of the same engine is of a more recent lineage.
pub open spec fn is_newest(found: Seq<FoundView>, runtime: RuntimeView) -> bool {
    forall|i: int|
        0 <= i < found.len() && (#[trigger] found[i]).runtime.manifest.identity.engine_id
            == runtime.manifest.identity.engine_id ==> recency(found[i].runtime, runtime, true, true)
            != Order::Greater
}

/// Whether a runtime has the badge: it, or one of the same identifier, is of the newest lineage.
pub open spec fn has_badge(found: Seq<FoundView>, runtime_id: Seq<char>) -> bool {
    exists|i: int|
        0 <= i < found.len() && (#[trigger] found[i]).runtime.manifest.runtime_id == runtime_id
            && is_newest(found, found[i].runtime)
}

/// What is told of each runtime.
pub open spec fn assessed(found: Seq<FoundView>, selections: SelectionsView) -> Seq<StatusView> {
    found.map_values(
        |one: FoundView|
            StatusView {
                runtime: one.runtime,
                latest_installed: has_badge(found, one.runtime.manifest.runtime_id),
                compatibility: judged(one.answers, one.host),
                selected_for: selections.uses(one.runtime.manifest.runtime_id),
            },
    )
}

fn check_newest(found: &Vec<FoundRuntime>, runtime: &InstalledRuntime) -> (result: bool)
    ensures
        result == is_newest(views(found@), runtime@),
{
    let ghost all = views(found@);
    let mut i: usize = 0;
    while i < found.len()
        invariant
            i <= found.len(),
            all == views(found@),
            forall|k: int|
                0 <= k < i && (#[trigger] all[k]).runtime.manifest.identity.engine_id
                    == runtime@.manifest.identity.engine_id ==> recency(
                    all[k].runtime,
                    runtime@,
                    true,
                    true,
                ) != Order::Greater,
        decreases found.len() - i,
    {
        proof {
            assert(all[i as int] == found@[i as int]@);
        }
        if same(
            found[i].runtime.manifest.identity.engine_id.as_str(),
            runtime.manifest.identity.engine_id.as_str(),
        ) {
            match compare_installed_recency_inner(&found[i].runtime, runtime, true, true) {
                Order::Greater => {
                    return false;
                },
                _ => {},
            }
        }
        i += 1;
    }
    true
}

fn check_badge(found: &Vec<FoundRuntime>, runtime_id: &str) -> (result: bool)
    ensures
        result == has_badge(views(found@), runtime_id@),
{
    let ghost all = views(found@);
    let mut i: usize = 0;
    while i < found.len()
        invariant
            i <= found.len(),
            all == views(found@),
            forall|k: int|
                0 <= k < i ==> !((#[trigger] all[k]).runtime.manifest.runtime_id == runtime_id@
                    && is_newest(all, all[k].runtime)),
        decreases found.len() - i,
    {
        proof {
            assert(all[i as int] == found@[i as int]@);
        }
        if same(found[i].runtime.manifest.runtime_id.as_str(), runtime_id) && check_newest(
            found,
            &found[i].runtime,
        ) {
            return true;
        }
        i += 1;
    }
    false
}

/// What is told of runtimes, in the order that they come in.
pub fn assess_installed(found: &Vec<FoundRuntime>, selections: &RuntimeSelections) -> (result: Vec<
    InstalledRuntimeStatus,
>)
    ensures
        views(result@) == assessed(views(found@), selections@),
{
    let ghost all = views(found@);
    let ghost goal = assessed(all, selections@);
    let mut result: Vec<InstalledRuntimeStatus> = Vec::new();
    let mut i: usize = 0;
    while i < found.len()
        invariant
            i <= found.len(),
            all == views(found@),
            goal == assessed(all, selections@),
            views(result@) =~= goal.take(i as int),
        decreases found.len() - i,
    {
        let one = &found[i];
        let status = InstalledRuntimeStatus {
            runtime: one.runtime.duplicate(),
            latest_installed: check_badge(found, one.runtime.manifest.runtime_id.as_str()),
            compatibility: judge(&one.answers, &one.host),
            selected_for: selected_for(selections, one.runtime.manifest.runtime_id.as_str()),
        };
        proof {
            assert(all[i as int] == one@);
            assert(goal[i as int] == status@);
            lemma_views_push(result@, status);
            assert(goal.take(i + 1) =~= goal.take(i as int).push(goal[i as int]));
        }
        result.push(status);
        i += 1;
    }
    proof {
        assert(goal.take(all.len() as int) =~= goal);
    }
    result
}

/// The list of installed runtimes.
pub open spec fn listed(found: Seq<FoundView>, selections: SelectionsView) -> Seq<StatusView> {
    assessed(
        sorted(found, |a: FoundView, b: FoundView| listing_order(a, b) == Order::Less),
        selections,
    )
}

pub fn list_installed(found: Vec<FoundRuntime>, selections: &RuntimeSelections) -> (result: Vec<
    InstalledRuntimeStatus,
>)
    ensures
        views(result@) == listed(views(found@), selections@),
{
    proof {
        assert(order_of::<FoundRuntime>() =~= (|a: FoundView, b: FoundView|
            listing_order(a, b) == Order::Less));
    }
    let sorted_here = sort(found);
    assess_installed(&sorted_here, selections)
}

/// The model that a runtime is wanted for.
#[derive(Debug)]
pub struct WantedModel {
    pub id: String,
    pub format: String,
}

#[verifier::ext_equal]
pub struct WantedView {
    pub id: Seq<char>,
    pub format: Seq<char>,
}

impl View for WantedModel {
    type V = WantedView;

    open spec fn view(&self) -> WantedView {
        WantedView { id: self.id@, format: self.format@ }
    }
}

/// What an engine says of a runtime and a model: whether it takes the model's format, why it does not
/// take the model, how the two fit, how much it prefers the runtime, and the accelerator that it
/// would use.
#[derive(Debug)]
pub struct ModelAnswers {
    pub accepts_format: bool,
    pub model: Option<String>,
    pub runtime_model: RuntimeCompatibility,
    pub preference: u64,
    pub accelerator_binding: Option<String>,
}

#[verifier::ext_equal]
pub struct ModelAnswersView {
    pub accepts_format: bool,
    pub model: Option<Seq<char>>,
    pub runtime_model: CompatibilityView,
    pub preference: u64,
    pub accelerator_binding: Option<Seq<char>>,
}

impl View for ModelAnswers {
    type V = ModelAnswersView;

    open spec fn view(&self) -> ModelAnswersView {
        ModelAnswersView {
            accepts_format: self.accepts_format,
            model: optional(self.model),
            runtime_model: self.runtime_model@,
            preference: self.preference,
            accelerator_binding: optional(self.accelerator_binding),
        }
    }
}

/// An installed runtime that may serve a model. Where its engine is registered, there are answers.
#[derive(Debug)]
pub struct RuntimeCandidate {
    pub status: InstalledRuntimeStatus,
    pub answers: Option<(RuntimeAnswers, ModelAnswers)>,
    pub host: RuntimeCompatibility,
}

#[verifier::ext_equal]
pub struct RuntimeCandidateView {
    pub status: StatusView,
    pub answers: Option<(AnswersView, ModelAnswersView)>,
    pub host: CompatibilityView,
}

impl View for RuntimeCandidate {
    type V = RuntimeCandidateView;

    open spec fn view(&self) -> RuntimeCandidateView {
        RuntimeCandidateView {
            status: self.status@,
            answers: match self.answers {
                Some((runtime, model)) => Some((runtime@, model@)),
                None => None,
            },
            host: self.host@,
        }
    }
}

impl RuntimeCandidateView {
    pub open spec fn id(self) -> Seq<char> {
        self.status.runtime.manifest.runtime_id
    }

    pub open spec fn engine(self) -> Seq<char> {
        self.status.runtime.manifest.identity.engine_id
    }

    pub open spec fn supports(self, format: Seq<char>) -> bool {
        self.status.runtime.manifest.supported_formats.contains(format)
    }

    /// Why the runtime cannot serve a format, if it cannot.
    pub open spec fn format_refusal(self, format: Seq<char>) -> Option<Seq<char>> {
        if !self.supports(format) {
            Some("runtime does not support "@ + format)
        } else {
            match self.answers {
                None => Some("engine adapter is not registered"@),
                Some((runtime, model)) => match (runtime.management, runtime.runtime) {
                    (Some(reason), _) => Some(reason),
                    (None, Some(reason)) => Some(reason),
                    (None, None) => if !model.accepts_format {
                        Some("engine adapter does not support this artifact format"@)
                    } else {
                        match self.host {
                            CompatibilityView::Incompatible(reason) => Some(reason),
                            _ => None,
                        }
                    },
                },
            }
        }
    }

    /// How the runtime fits a model of a format, or why it cannot serve the format at all.
    pub open spec fn model_fit(self, format: Seq<char>) -> Result<CompatibilityView, Seq<char>> {
        match (self.format_refusal(format), self.answers) {
            (Some(reason), _) => Err(reason),
            (None, Some((_, model))) => match model.model {
                Some(reason) => Ok(CompatibilityView::Incompatible(reason)),
                None => Ok(self.host.combined(model.runtime_model)),
            },
            (None, None) => Err("engine adapter is not registered"@),
        }
    }

    /// Why the runtime cannot serve a model of a format, if it cannot.
    pub open spec fn model_refusal(self, format: Seq<char>) -> Option<Seq<char>> {
        match self.model_fit(format) {
            Err(reason) => Some(reason),
            Ok(CompatibilityView::Incompatible(reason)) => Some(reason),
            Ok(_) => None,
        }
    }

    /// What the engine says of the runtime, where it is registered.
    pub open spec fn of_runtime(self) -> AnswersView {
        let (runtime, _) = self.answers->0;
        runtime
    }

    /// What the engine says of the model, where it is registered.
    pub open spec fn of_model(self) -> ModelAnswersView {
        let (_, model) = self.answers->0;
        model
    }

    /// How much the engine prefers the runtime, the least where it is not registered.
    pub open spec fn preference(self) -> int {
        match self.answers {
            Some((_, model)) => model.preference as int,
            None => 65535,
        }
    }

    pub open spec fn binding(self) -> Option<Seq<char>> {
        match self.answers {
            Some((_, model)) => model.accelerator_binding,
            None => None,
        }
    }

    pub open spec fn incompatible(self, reason: Seq<char>) -> PackErrorView {
        PackErrorView::Incompatible { runtime_id: self.id(), reason }
    }
}

impl RuntimeCandidate {
    fn refuse(&self, reason: String) -> (result: RuntimePackError)
        ensures
            result@ == self@.incompatible(reason@),
    {
        RuntimePackError::Incompatible {
            runtime_id: self.status.runtime.manifest.runtime_id.clone(),
            reason,
        }
    }

    fn format_reason(&self, format: &str) -> (result: Option<String>)
        ensures
            optional(result) == self@.format_refusal(format@),
    {
        if !contains_text(&self.status.runtime.manifest.supported_formats, format) {
            return Some(cat2("runtime does not support ", format));
        }
        let (runtime, model) = match &self.answers {
            Some((runtime, model)) => (runtime, model),
            None => {
                return Some("engine adapter is not registered".to_owned());
            },
        };
        match &runtime.management {
            Some(reason) => {
                return Some(reason.clone());
            },
            None => {},
        }
        match &runtime.runtime {
            Some(reason) => {
                return Some(reason.clone());
            },
            None => {},
        }
        if !model.accepts_format {
            return Some("engine adapter does not support this artifact format".to_owned());
        }
        match &self.host {
            RuntimeCompatibility::Incompatible(reason) => Some(reason.clone()),
            _ => None,
        }
    }

    pub fn validate_format_candidate(&self, format: &str) -> (result: Result<(), RuntimePackError>)
        ensures
            match (result, self@.format_refusal(format@)) {
                (Ok(()), None) => true,
                (Err(error), Some(reason)) => error@ == self@.incompatible(reason),
                _ => false,
            },
    {
        match self.format_reason(format) {
            Some(reason) => Err(self.refuse(reason)),
            None => Ok(()),
        }
    }

    pub fn model_candidate_compatibility(&self, format: &str) -> (result: Result<
        RuntimeCompatibility,
        RuntimePackError,
    >)
        ensures
            match (result, self@.model_fit(format@)) {
                (Ok(fit), Ok(expected)) => fit@ == expected,
                (Err(error), Err(reason)) => error@ == self@.incompatible(reason),
                _ => false,
            },
    {
        match self.format_reason(format) {
            Some(reason) => {
                return Err(self.refuse(reason));
            },
            None => {},
        }
        match &self.answers {
            Some((_, model)) => match &model.model {
                Some(reason) => Ok(RuntimeCompatibility::Incompatible(reason.clone())),
                None => Ok(
                    combine_compatibility(self.host.duplicate(), model.runtime_model.duplicate()),
                ),
            },
            None => Err(self.refuse("engine adapter is not registered".to_owned())),
        }
    }

    pub fn validate_model_candidate(&self, format: &str) -> (result: Result<(), RuntimePackError>)
        ensures
            match (result, self@.model_refusal(format@)) {
                (Ok(()), None) => true,
                (Err(error), Some(reason)) => error@ == self@.incompatible(reason),
                _ => false,
            },
    {
        match self.model_candidate_compatibility(format) {
            Err(error) => Err(error),
            Ok(RuntimeCompatibility::Incompatible(reason)) => Err(self.refuse(reason)),
            Ok(_) => Ok(()),
        }
    }

    fn engine_preference(&self) -> (result: u64)
        ensures
            result == self@.preference(),
    {
        match &self.answers {
            Some((_, model)) => model.preference,
            None => 65535,
        }
    }

    fn accelerator_binding(&self) -> (result: Option<String>)
        ensures
            optional(result) == self@.binding(),
    {
        match &self.answers {
            Some((_, model)) => duplicate_option(&model.accelerator_binding),
            None => None,
        }
    }

    fn serves_engine(&self, required: &Option<String>) -> (result: bool)
        ensures
            result == bound_to(self@, optional(*required)),
    {
        match required {
            Some(required) => same(
                self.status.runtime.manifest.identity.engine_id.as_str(),
                required.as_str(),
            ),
            None => true,
        }
    }
}

/// Whether a runtime is of the engine that is asked for, if one is.
pub open spec fn bound_to(candidate: RuntimeCandidateView, required: Option<Seq<char>>) -> bool {
    required is None || candidate.engine() == required->0
}

/// A runtime that fits, as it is ranked.
#[derive(Debug)]
pub struct RankedRuntime {
    pub runtime: InstalledRuntime,
    pub compatibility: RuntimeCompatibility,
    pub preference: u64,
    pub accelerator_binding: Option<String>,
}

#[verifier::ext_equal]
pub struct RankedRuntimeView {
    pub runtime: RuntimeView,
    pub compatibility: CompatibilityView,
    pub preference: u64,
    pub accelerator_binding: Option<Seq<char>>,
}

impl View for RankedRuntime {
    type V = RankedRuntimeView;

    open spec fn view(&self) -> RankedRuntimeView {
        RankedRuntimeView {
            runtime: self.runtime@,
            compatibility: self.compatibility@,
            preference: self.preference,
            accelerator_binding: optional(self.accelerator_binding),
        }
    }
}

impl Duplicate for RankedRuntime {
    fn duplicate(&self) -> (result: RankedRuntime) {
        RankedRuntime {
            runtime: self.runtime.duplicate(),
            compatibility: self.compatibility.duplicate(),
            preference: self.preference,
            accelerator_binding: duplicate_option(&self.accelerator_binding),
        }
    }
}

/// How two runtimes that fit compare: the better fit, then what the engine prefers, then managed
/// ones, then the more recent, then by identifier.
pub open spec fn rank_order(a: RankedRuntimeView, b: RankedRuntimeView) -> Order {
    number_order(a.compatibility.rank(), b.compatibility.rank()).or(
        number_order(a.preference as int, b.preference as int),
    ).or(
        number_order(
            acquisition_order(a.runtime.manifest.acquisition_method),
            acquisition_order(b.runtime.manifest.acquisition_method),
        ),
    ).or(resolver_recency(b.runtime, a.runtime)).or(
        text_order(a.runtime.manifest.runtime_id, b.runtime.manifest.runtime_id),
    )
}

impl Precedes for RankedRuntime {
    open spec fn before(a: RankedRuntimeView, b: RankedRuntimeView) -> bool {
        rank_order(a, b) == Order::Less
    }

    fn precedes(&self, other: &RankedRuntime) -> (result: bool) {
        match compare_u64(
            self.compatibility.preference_rank(),
            other.compatibility.preference_rank(),
        ).and_next(compare_u64(self.preference, other.preference)).and_next(
            compare_u64(acquisition_rank(&self.runtime), acquisition_rank(&other.runtime)),
        ).and_next(compare_installed_recency_with_registry(&other.runtime, &self.runtime)).and_next(
            compare_text(
                self.runtime.manifest.runtime_id.as_str(),
                other.runtime.manifest.runtime_id.as_str(),
            ),
        ) {
            Order::Less => true,
            _ => false,
        }
    }
}

/// What becomes of a runtime where one is looked for: it is passed over, it is turned down for a
/// reason, or it fits. For serving, what the list says of the runtime counts too.
#[verifier::ext_equal]
pub enum VerdictView {
    Passed,
    Rejected(Seq<char>),
    Fits(RankedRuntimeView),
}

pub open spec fn verdict(
    candidate: RuntimeCandidateView,
    format: Seq<char>,
    required: Option<Seq<char>>,
    serving: bool,
) -> VerdictView {
    if !bound_to(candidate, required) || !candidate.supports(format) {
        VerdictView::Passed
    } else if serving && !candidate.status.compatibility.usable() {
        VerdictView::Rejected(
            candidate.id() + ": "@ + candidate.status.compatibility->Incompatible_0,
        )
    } else {
        match candidate.model_fit(format) {
            Err(reason) => VerdictView::Rejected(candidate.incompatible(reason).text()),
            Ok(CompatibilityView::Incompatible(reason)) => VerdictView::Rejected(
                if serving {
                    candidate.id() + ": "@ + reason
                } else {
                    candidate.incompatible(reason).text()
                },
            ),
            Ok(compatibility) => VerdictView::Fits(
                RankedRuntimeView {
                    runtime: candidate.status.runtime,
                    compatibility,
                    preference: candidate.preference() as u64,
                    accelerator_binding: candidate.binding(),
                },
            ),
        }
    }
}

#[derive(Debug)]
enum Verdict {
    Passed,
    Rejected(String),
    Fits(RankedRuntime),
}

impl Verdict {
    spec fn told(self) -> VerdictView {
        match self {
            Verdict::Passed => VerdictView::Passed,
            Verdict::Rejected(text) => VerdictView::Rejected(text@),
            Verdict::Fits(ranked) => VerdictView::Fits(ranked@),
        }
    }
}

fn decide(
    candidate: &RuntimeCandidate,
    format: &str,
    required: &Option<String>,
    serving: bool,
) -> (result: Verdict)
    ensures
        result.told() == verdict(candidate@, format@, optional(*required), serving),
{
    let runtime = &candidate.status.runtime;
    let id = runtime.manifest.runtime_id.as_str();
    if !candidate.serves_engine(required) || !contains_text(
        &runtime.manifest.supported_formats,
        format,
    ) {
        return Verdict::Passed;
    }
    if serving {
        match &candidate.status.compatibility {
            RuntimeCompatibility::Incompatible(reason) => {
                return Verdict::Rejected(cat3(id, ": ", reason.as_str()));
            },
            _ => {},
        }
    }
    match candidate.model_candidate_compatibility(format) {
        Err(error) => Verdict::Rejected(error.message()),
        Ok(RuntimeCompatibility::Incompatible(reason)) => {
            if serving {
                Verdict::Rejected(cat3(id, ": ", reason.as_str()))
            } else {
                Verdict::Rejected(candidate.refuse(reason).message())
            }
        },
        Ok(compatibility) => Verdict::Fits(
            RankedRuntime {
                runtime: runtime.duplicate(),
                compatibility,
                preference: candidate.engine_preference(),
                accelerator_binding: candidate.accelerator_binding(),
            },
        ),
    }
}

/// The runtimes that fit, in the order that they come in.
pub open spec fn fitting(
    candidates: Seq<RuntimeCandidateView>,
    format: Seq<char>,
    required: Option<Seq<char>>,
    serving: bool,
) -> Seq<RankedRuntimeView>
    decreases candidates.len(),
{
    if candidates.len() == 0 {
        Seq::empty()
    } else {
        let before = fitting(candidates.drop_last(), format, required, serving);
        match verdict(candidates.last(), format, required, serving) {
            VerdictView::Fits(ranked) => before.push(ranked),
            _ => before,
        }
    }
}

/// Why the others were turned down, those that were.
pub open spec fn rejections(
    candidates: Seq<RuntimeCandidateView>,
    format: Seq<char>,
    required: Option<Seq<char>>,
    serving: bool,
) -> Seq<Seq<char>>
    decreases candidates.len(),
{
    if candidates.len() == 0 {
        Seq::empty()
    } else {
        let before = rejections(candidates.drop_last(), format, required, serving);
        match verdict(candidates.last(), format, required, serving) {
            VerdictView::Rejected(text) => before.push(text),
            _ => before,
        }
    }
}

/// The runtimes that fit, the best first.
pub open spec fn ranking(
    candidates: Seq<RuntimeCandidateView>,
    format: Seq<char>,
    required: Option<Seq<char>>,
    serving: bool,
) -> Seq<RankedRuntimeView> {
    sorted(
        fitting(candidates, format, required, serving),
        |a: RankedRuntimeView, b: RankedRuntimeView| rank_order(a, b) == Order::Less,
    )
}

fn rank_candidates(
    candidates: &Vec<RuntimeCandidate>,
    format: &str,
    required: &Option<String>,
    serving: bool,
) -> (result: (Vec<RankedRuntime>, Vec<String>))
    ensures
        views(result.0@) == ranking(views(candidates@), format@, optional(*required), serving),
        views(result.1@) == rejections(views(candidates@), format@, optional(*required), serving),
{
    let ghost all = views(candidates@);
    let ghost engine = optional(*required);
    let mut compatible: Vec<RankedRuntime> = Vec::new();
    let mut rejected: Vec<String> = Vec::new();
    let mut i: usize = 0;
    proof {
        assert(views(compatible@) =~= fitting(all.take(0), format@, engine, serving));
        assert(views(rejected@) =~= rejections(all.take(0), format@, engine, serving));
    }
    while i < candidates.len()
        invariant
            i <= candidates.len(),
            all == views(candidates@),
            engine == optional(*required),
            views(compatible@) == fitting(all.take(i as int), format@, engine, serving),
            views(rejected@) == rejections(all.take(i as int), format@, engine, serving),
        decreases candidates.len() - i,
    {
        proof {
            assert(all.take(i + 1).drop_last() =~= all.take(i as int));
            assert(all.take(i + 1).last() == candidates@[i as int]@);
        }
        match decide(&candidates[i], format, required, serving) {
            Verdict::Passed => {},
            Verdict::Rejected(text) => {
                proof {
                    lemma_views_push(rejected@, text);
                }
                rejected.push(text);
            },
            Verdict::Fits(ranked) => {
                proof {
                    lemma_views_push(compatible@, ranked);
                }
                compatible.push(ranked);
            },
        }
        i += 1;
    }
    proof {
        assert(all.take(all.len() as int) =~= all);
        assert(order_of::<RankedRuntime>() =~= (|a: RankedRuntimeView, b: RankedRuntimeView|
            rank_order(a, b) == Order::Less));
    }
    (sort(compatible), rejected)
}

/// A runtime chosen for a model, and why.
#[derive(Debug)]
pub struct RuntimeSelection {
    pub runtime: InstalledRuntime,
    pub source: RuntimeSelectionSource,
    pub notices: Vec<String>,
    pub accelerator_binding: Option<String>,
}

#[verifier::ext_equal]
pub struct RuntimeSelectionView {
    pub runtime: RuntimeView,
    pub source: RuntimeSelectionSource,
    pub notices: Seq<Seq<char>>,
    pub accelerator_binding: Option<Seq<char>>,
}

impl View for RuntimeSelection {
    type V = RuntimeSelectionView;

    open spec fn view(&self) -> RuntimeSelectionView {
        RuntimeSelectionView {
            runtime: self.runtime@,
            source: self.source,
            notices: views(self.notices@),
            accelerator_binding: optional(self.accelerator_binding),
        }
    }
}

/// The first runtime with an identifier.
pub open spec fn candidate_of(candidates: Seq<RuntimeCandidateView>, id: Seq<char>) -> Option<
    RuntimeCandidateView,
>
    decreases candidates.len(),
{
    if candidates.len() == 0 {
        None
    } else if candidates[0].id() == id {
        Some(candidates[0])
    } else {
        candidate_of(candidates.skip(1), id)
    }
}

fn find_candidate<'a>(candidates: &'a Vec<RuntimeCandidate>, id: &str) -> (result: Option<
    &'a RuntimeCandidate,
>)
    ensures
        referenced(result) == candidate_of(views(candidates@), id@),
{
    let ghost all = views(candidates@);
    let mut i: usize = 0;
    proof {
        assert(all.skip(0) =~= all);
    }
    while i < candidates.len()
        invariant
            i <= candidates.len(),
            all == views(candidates@),
            candidate_of(all, id@) == candidate_of(all.skip(i as int), id@),
        decreases candidates.len() - i,
    {
        proof {
            assert(all.skip(i as int)[0] == candidates@[i as int]@);
            assert(all.skip(i as int).skip(1) =~= all.skip(i + 1));
        }
        if same(candidates[i].status.runtime.manifest.runtime_id.as_str(), id) {
            return Some(&candidates[i]);
        }
        i += 1;
    }
    None
}

/// The runtime that is chosen by its identifier, where it can serve the model.
pub open spec fn chosen(
    candidates: Seq<RuntimeCandidateView>,
    id: Seq<char>,
    format: Seq<char>,
) -> Result<RuntimeCandidateView, PackErrorView> {
    match candidate_of(candidates, id) {
        None => Err(PackErrorView::NotInstalled(id)),
        Some(candidate) => match (
            candidate.status.compatibility,
            candidate.model_refusal(format),
        ) {
            (CompatibilityView::Incompatible(reason), _) => Err(
                PackErrorView::Incompatible { runtime_id: id, reason },
            ),
            (_, Some(reason)) => Err(candidate.incompatible(reason)),
            (_, None) => Ok(candidate),
        },
    }
}

pub fn selected_candidate<'a>(
    candidates: &'a Vec<RuntimeCandidate>,
    id: &str,
    format: &str,
) -> (result: Result<&'a RuntimeCandidate, RuntimePackError>)
    ensures
        match (result, chosen(views(candidates@), id@, format@)) {
            (Ok(candidate), Ok(expected)) => candidate@ == expected,
            (Err(error), Err(expected)) => error@ == expected,
            _ => false,
        },
{
    let candidate = match find_candidate(candidates, id) {
        Some(candidate) => candidate,
        None => {
            return Err(RuntimePackError::NotInstalled(id.to_owned()));
        },
    };
    match &candidate.status.compatibility {
        RuntimeCompatibility::Incompatible(reason) => {
            return Err(
                RuntimePackError::Incompatible {
                    runtime_id: id.to_owned(),
                    reason: reason.clone(),
                },
            );
        },
        _ => {},
    }
    match candidate.validate_model_candidate(format) {
        Err(error) => Err(error),
        Ok(()) => Ok(candidate),
    }
}

/// Why a runtime cannot be chosen for a format, if it cannot.
pub open spec fn format_choice_refusal(
    candidates: Seq<RuntimeCandidateView>,
    id: Seq<char>,
    format: Seq<char>,
) -> Option<PackErrorView> {
    match candidate_of(candidates, id) {
        None => Some(PackErrorView::NotInstalled(id)),
        Some(candidate) => match candidate.format_refusal(format) {
            Some(reason) => Some(candidate.incompatible(reason)),
            None => None,
        },
    }
}

/// Why a runtime cannot be chosen for a model of a format, if it cannot.
pub open spec fn model_choice_refusal(
    candidates: Seq<RuntimeCandidateView>,
    id: Seq<char>,
    format: Seq<char>,
) -> Option<PackErrorView> {
    match candidate_of(candidates, id) {
        None => Some(PackErrorView::NotInstalled(id)),
        Some(candidate) => match candidate.model_refusal(format) {
            Some(reason) => Some(candidate.incompatible(reason)),
            None => None,
        },
    }
}

/// Chooses an installed runtime for a format, where it can serve that. Otherwise nothing changes.
pub fn select_format_with_preference(
    selections: &mut RuntimeSelections,
    candidates: &Vec<RuntimeCandidate>,
    format: &str,
    runtime_id: &str,
    preference: RuntimeUpdatePreference,
) -> (result: Result<(), RuntimePackError>)
    ensures
        match (result, format_choice_refusal(views(candidates@), runtime_id@, format@)) {
            (Ok(()), None) => final(selections)@ == old(selections)@.format_selected(
                format@,
                runtime_id@,
                preference,
            ),
            (Err(error), Some(expected)) => error@ == expected && final(selections)@ == old(
                selections,
            )@,
            _ => false,
        },
{
    match find_candidate(candidates, runtime_id) {
        None => Err(RuntimePackError::NotInstalled(runtime_id.to_owned())),
        Some(candidate) => match candidate.validate_format_candidate(format) {
            Err(error) => Err(error),
            Ok(()) => {
                selections.select_format(format, runtime_id, preference);
                Ok(())
            },
        },
    }
}

/// Chooses an installed runtime for a model, where it can serve that. Otherwise nothing changes.
pub fn select_model_with_preference(
    selections: &mut RuntimeSelections,
    candidates: &Vec<RuntimeCandidate>,
    model: &WantedModel,
    runtime_id: &str,
    preference: RuntimeUpdatePreference,
) -> (result: Result<(), RuntimePackError>)
    ensures
        match (result, model_choice_refusal(views(candidates@), runtime_id@, model@.format)) {
            (Ok(()), None) => final(selections)@ == old(selections)@.model_selected(
                model@.id,
                runtime_id@,
                preference,
            ),
            (Err(error), Some(expected)) => error@ == expected && final(selections)@ == old(
                selections,
            )@,
            _ => false,
        },
{
    match find_candidate(candidates, runtime_id) {
        None => Err(RuntimePackError::NotInstalled(runtime_id.to_owned())),
        Some(candidate) => match candidate.validate_model_candidate(model.format.as_str()) {
            Err(error) => Err(error),
            Ok(()) => {
                selections.select_model(model.id.as_str(), runtime_id, preference);
                Ok(())
            },
        },
    }
}

pub open spec fn selection(
    candidate: RuntimeCandidateView,
    source: RuntimeSelectionSource,
    notices: Seq<Seq<char>>,
) -> RuntimeSelectionView {
    RuntimeSelectionView {
        runtime: candidate.status.runtime,
        source,
        notices,
        accelerator_binding: candidate.binding(),
    }
}

fn make_selection(
    candidate: &RuntimeCandidate,
    source: RuntimeSelectionSource,
    notices: Vec<String>,
) -> (result: RuntimeSelection)
    ensures
        result@ == selection(candidate@, source, views(notices@)),
{
    RuntimeSelection {
        runtime: candidate.status.runtime.duplicate(),
        source,
        notices,
        accelerator_binding: candidate.accelerator_binding(),
    }
}

/// What is said of a choice that is of another engine.
pub open spec fn ignored(
    kind: Seq<char>,
    candidate: RuntimeCandidateView,
    required: Seq<char>,
) -> Seq<char> {
    "ignored "@ + kind + " runtime selection `"@ + candidate.id()
        + "` because it uses engine `"@ + candidate.engine() + "` instead of bound engine `"@
        + required + "`"@
}

fn tell_ignored(kind: &str, candidate: &RuntimeCandidate, required: &str) -> (result: String)
    ensures
        result@ == ignored(kind@, candidate@, required@),
{
    let head = cat5(
        "ignored ",
        kind,
        " runtime selection `",
        candidate.status.runtime.manifest.runtime_id.as_str(),
        "` because it uses engine `",
    );
    cat5(
        head.as_str(),
        candidate.status.runtime.manifest.identity.engine_id.as_str(),
        "` instead of bound engine `",
        required,
        "`",
    )
}

/// The runtime that an invocation asks for, where it is installed, fits, and is of the engine asked
/// for.
pub open spec fn invoked(
    candidates: Seq<RuntimeCandidateView>,
    id: Seq<char>,
    format: Seq<char>,
    required: Option<Seq<char>>,
) -> Result<RuntimeSelectionView, PackErrorView> {
    match candidate_of(candidates, id) {
        Some(candidate) if candidate.status.compatibility.usable() && !bound_to(
            candidate,
            required,
        ) => Err(
            PackErrorView::Incompatible {
                runtime_id: id,
                reason: "Model Profile binds engine `"@ + required->0 + "` but runtime uses `"@
                    + candidate.engine() + "`"@,
            },
        ),
        _ => match chosen(candidates, id, format) {
            Err(error) => Err(error),
            Ok(candidate) => Ok(
                selection(candidate, RuntimeSelectionSource::Invocation, Seq::empty()),
            ),
        },
    }
}

/// What the runtime chosen for a model or a format comes to: the selection, a notice to go on with,
/// or an error.
#[verifier::ext_equal]
pub enum PreferredView {
    Selected(RuntimeSelectionView),
    Ignored(Seq<char>),
    Failed(PackErrorView),
    Absent,
}

pub open spec fn preferred(
    candidates: Seq<RuntimeCandidateView>,
    id: Option<Seq<char>>,
    format: Seq<char>,
    required: Option<Seq<char>>,
    kind: Seq<char>,
    source: RuntimeSelectionSource,
    notices: Seq<Seq<char>>,
) -> PreferredView {
    match id {
        None => PreferredView::Absent,
        Some(id) => match chosen(candidates, id, format) {
            Err(error) => PreferredView::Failed(error),
            Ok(candidate) => if bound_to(candidate, required) {
                PreferredView::Selected(selection(candidate, source, notices))
            } else {
                PreferredView::Ignored(ignored(kind, candidate, required->0))
            },
        },
    }
}

/// What is said where no runtime fits.
pub open spec fn none_fits(model: WantedView, rejected: Seq<Seq<char>>) -> PackErrorView {
    PackErrorView::Selection(
        "no compatible installed runtime is available for model `"@ + model.id + "` ("@
            + model.format + ")"@ + if rejected.len() == 0 {
            ""@
        } else {
            "; candidate rejections: "@ + joined(rejected, "; "@)
        },
    )
}

/// The best runtime that fits, where nothing was chosen.
pub open spec fn fallback(
    candidates: Seq<RuntimeCandidateView>,
    model: WantedView,
    required: Option<Seq<char>>,
    notices: Seq<Seq<char>>,
) -> Result<RuntimeSelectionView, PackErrorView> {
    let ranked = ranking(candidates, model.format, required, true);
    if ranked.len() > 0 {
        Ok(
            RuntimeSelectionView {
                runtime: ranked[0].runtime,
                source: RuntimeSelectionSource::Fallback,
                notices,
                accelerator_binding: ranked[0].accelerator_binding,
            },
        )
    } else {
        Err(none_fits(model, rejections(candidates, model.format, required, true)))
    }
}

pub open spec fn by_format(
    candidates: Seq<RuntimeCandidateView>,
    selections: SelectionsView,
    model: WantedView,
    required: Option<Seq<char>>,
    notices: Seq<Seq<char>>,
) -> Result<RuntimeSelectionView, PackErrorView> {
    match preferred(
        candidates,
        value_at(selections.format_defaults, model.format),
        model.format,
        required,
        "format"@,
        RuntimeSelectionSource::FormatDefault,
        notices,
    ) {
        PreferredView::Selected(selection) => Ok(selection),
        PreferredView::Failed(error) => Err(error),
        PreferredView::Ignored(notice) => fallback(
            candidates,
            model,
            required,
            notices.push(notice),
        ),
        PreferredView::Absent => fallback(candidates, model, required, notices),
    }
}

/// The runtime for a model: the one that the invocation asks for; else the one chosen for the model;
/// else the one chosen for its format; else the best that fits.
pub open spec fn resolved(
    candidates: Seq<RuntimeCandidateView>,
    selections: SelectionsView,
    model: WantedView,
    explicit: Option<Seq<char>>,
    required: Option<Seq<char>>,
) -> Result<RuntimeSelectionView, PackErrorView> {
    match explicit {
        Some(id) => invoked(candidates, id, model.format, required),
        None => match preferred(
            candidates,
            value_at(selections.model_overrides, model.id),
            model.format,
            required,
            "model"@,
            RuntimeSelectionSource::ModelOverride,
            Seq::empty(),
        ) {
            PreferredView::Selected(selection) => Ok(selection),
            PreferredView::Failed(error) => Err(error),
            PreferredView::Ignored(notice) => by_format(
                candidates,
                selections,
                model,
                required,
                seq![notice],
            ),
            PreferredView::Absent => by_format(
                candidates,
                selections,
                model,
                required,
                Seq::empty(),
            ),
        },
    }
}

pub fn resolve_from_snapshot(
    candidates: &Vec<RuntimeCandidate>,
    selections: &RuntimeSelections,
    model: &WantedModel,
    explicit: Option<&str>,
    required_engine_id: &Option<String>,
) -> (result: Result<RuntimeSelection, RuntimePackError>)
    ensures
        match (
            result,
            resolved(
                views(candidates@),
                selections@,
                model@,
                match explicit {
                    Some(id) => Some(id@),
                    None => None,
                },
                optional(*required_engine_id),
            ),
        ) {
            (Ok(selection), Ok(expected)) => selection@ == expected,
            (Err(error), Err(expected)) => error@ == expected,
            _ => false,
        },
{
    let format = model.format.as_str();
    match explicit {
        Some(id) => {
            match find_candidate(candidates, id) {
                Some(candidate) => {
                    if candidate.status.compatibility.is_usable() && !candidate.serves_engine(
                        required_engine_id,
                    ) {
                        match required_engine_id {
                            Some(required) => {
                                return Err(
                                    RuntimePackError::Incompatible {
                                        runtime_id: id.to_owned(),
                                        reason: cat5(
                                            "Model Profile binds engine `",
                                            required.as_str(),
                                            "` but runtime uses `",
                                            candidate.status.runtime.manifest.identity.engine_id.as_str(),
                                            "`",
                                        ),
                                    },
                                );
                            },
                            None => {},
                        }
                    }
                },
                None => {},
            }
            return match selected_candidate(candidates, id, format) {
                Err(error) => Err(error),
                Ok(candidate) => {
                    let notices: Vec<String> = Vec::new();
                    proof {
                        assert(views(notices@) =~= Seq::empty());
                    }
                    Ok(make_selection(candidate, RuntimeSelectionSource::Invocation, notices))
                },
            };
        },
        None => {},
    }
    let mut notices: Vec<String> = Vec::new();
    proof {
        assert(views(notices@) =~= Seq::empty());
    }
    match selections.model_overrides.get(model.id.as_str()) {
        Some(id) => match selected_candidate(candidates, id.as_str(), format) {
            Err(error) => {
                return Err(error);
            },
            Ok(candidate) => {
                match required_engine_id {
                    Some(required) if !candidate.serves_engine(required_engine_id) => {
                        let notice = tell_ignored("model", candidate, required.as_str());
                        proof {
                            lemma_views_push(notices@, notice);
                            assert(Seq::<Seq<char>>::empty().push(notice@) =~= seq![notice@]);
                        }
                        notices.push(notice);
                    },
                    _ => {
                        return Ok(
                            make_selection(
                                candidate,
                                RuntimeSelectionSource::ModelOverride,
                                notices,
                            ),
                        );
                    },
                }
            },
        },
        None => {},
    }
    match selections.format_defaults.get(format) {
        Some(id) => match selected_candidate(candidates, id.as_str(), format) {
            Err(error) => {
                return Err(error);
            },
            Ok(candidate) => {
                match required_engine_id {
                    Some(required) if !candidate.serves_engine(required_engine_id) => {
                        let notice = tell_ignored("format", candidate, required.as_str());
                        proof {
                            lemma_views_push(notices@, notice);
                        }
                        notices.push(notice);
                    },
                    _ => {
                        return Ok(
                            make_selection(
                                candidate,
                                RuntimeSelectionSource::FormatDefault,
                                notices,
                            ),
                        );
                    },
                }
            },
        },
        None => {},
    }
    let (ranked, rejected) = rank_candidates(candidates, format, required_engine_id, true);
    if ranked.len() > 0 {
        proof {
            assert(views(ranked@)[0] == ranked@[0]@);
        }
        let best = ranked[0].duplicate();
        return Ok(
            RuntimeSelection {
                runtime: best.runtime,
                source: RuntimeSelectionSource::Fallback,
                notices,
                accelerator_binding: best.accelerator_binding,
            },
        );
    }
    let detail = if rejected.len() == 0 {
        "".to_owned()
    } else {
        cat2("; candidate rejections: ", join(&rejected, "; ").as_str())
    };
    proof {
        assert(views(rejected@).len() == rejected@.len());
        assert(views(ranked@).len() == ranked@.len());
    }
    Err(
        RuntimePackError::Selection(
            cat6(
                "no compatible installed runtime is available for model `",
                model.id.as_str(),
                "` (",
                format,
                ")",
                detail.as_str(),
            ),
        ),
    )
}

/// A runtime that can serve a model, and how it fits.
#[derive(Debug)]
pub struct RuntimeModelCandidate {
    pub runtime_id: String,
    pub compatibility: RuntimeCompatibility,
}

#[verifier::ext_equal]
pub struct ModelCandidateView {
    pub runtime_id: Seq<char>,
    pub compatibility: CompatibilityView,
}

impl View for RuntimeModelCandidate {
    type V = ModelCandidateView;

    open spec fn view(&self) -> ModelCandidateView {
        ModelCandidateView {
            runtime_id: self.runtime_id@,
            compatibility: self.compatibility@,
        }
    }
}

/// The runtimes that can serve a model, the best first; an error where there is none.
pub open spec fn model_candidates(
    candidates: Seq<RuntimeCandidateView>,
    model: WantedView,
) -> Result<Seq<ModelCandidateView>, PackErrorView> {
    let ranked = ranking(candidates, model.format, None, false);
    let rejected = rejections(candidates, model.format, None, false);
    if ranked.len() == 0 {
        Err(
            PackErrorView::Selection(
                "no compatible installed runtime supports model `"@ + model.id + "`"@
                    + if rejected.len() == 0 {
                    ""@
                } else {
                    ": "@ + joined(rejected, "; "@)
                },
            ),
        )
    } else {
        Ok(
            ranked.map_values(
                |one: RankedRuntimeView|
                    ModelCandidateView {
                        runtime_id: one.runtime.manifest.runtime_id,
                        compatibility: one.compatibility,
                    },
            ),
        )
    }
}

pub fn compatible_installed_for_model(
    candidates: &Vec<RuntimeCandidate>,
    model: &WantedModel,
) -> (result: Result<Vec<RuntimeModelCandidate>, RuntimePackError>)
    ensures
        match (result, model_candidates(views(candidates@), model@)) {
            (Ok(list), Ok(expected)) => views(list@) == expected,
            (Err(error), Err(expected)) => error@ == expected,
            _ => false,
        },
{
    let (ranked, rejected) = rank_candidates(candidates, model.format.as_str(), &None, false);
    proof {
        assert(views(rejected@).len() == rejected@.len());
        assert(views(ranked@).len() == ranked@.len());
    }
    if ranked.len() == 0 {
        let detail = if rejected.len() == 0 {
            "".to_owned()
        } else {
            cat2(": ", join(&rejected, "; ").as_str())
        };
        return Err(
            RuntimePackError::Selection(
                cat4(
                    "no compatible installed runtime supports model `",
                    model.id.as_str(),
                    "`",
                    detail.as_str(),
                ),
            ),
        );
    }
    let ghost goal = views(ranked@).map_values(
        |one: RankedRuntimeView|
            ModelCandidateView {
                runtime_id: one.runtime.manifest.runtime_id,
                compatibility: one.compatibility,
            },
    );
    let mut result: Vec<RuntimeModelCandidate> = Vec::new();
    let mut i: usize = 0;
    while i < ranked.len()
        invariant
            i <= ranked.len(),
            goal == views(ranked@).map_values(
                |one: RankedRuntimeView|
                    ModelCandidateView {
                        runtime_id: one.runtime.manifest.runtime_id,
                        compatibility: one.compatibility,
                    },
            ),
            views(result@) =~= goal.take(i as int),
        decreases ranked.len() - i,
    {
        let one = RuntimeModelCandidate {
            runtime_id: ranked[i].runtime.manifest.runtime_id.clone(),
            compatibility: ranked[i].compatibility.duplicate(),
        };
        proof {
            assert(views(ranked@)[i as int] == ranked@[i as int]@);
            assert(goal[i as int] == one@);
            lemma_views_push(result@, one);
            assert(goal.take(i + 1) =~= goal.take(i as int).push(goal[i as int]));
        }
        result.push(one);
        i += 1;
    }
    proof {
        assert(goal.take(ranked@.len() as int) =~= goal);
    }
    Ok(result)
}

/// What an inspection of this host found, without asking providers or preparing the store.
#[derive(Debug)]
pub struct RuntimeLocalInspection {
    pub selections: Option<RuntimeSelections>,
    pub selections_error: Option<String>,
    pub installed: Vec<RuntimeCandidate>,
    pub store_error: Option<String>,
}

/// The runtime for a model by an inspection; an error where the store or the selections could not be
/// read.
pub open spec fn inspected(
    inspection: RuntimeLocalInspection,
    model: WantedView,
    required: Option<Seq<char>>,
) -> Result<RuntimeSelectionView, PackErrorView> {
    match (inspection.store_error, inspection.selections) {
        (Some(error), _) => Err(
            PackErrorView::Selection("runtime store is unavailable: "@ + error@),
        ),
        (None, None) => Err(
            PackErrorView::Selection(
                "runtime selections are unavailable: "@ + match inspection.selections_error {
                    Some(error) => error@,
                    None => "unknown error"@,
                },
            ),
        ),
        (None, Some(selections)) => resolved(
            views(inspection.installed@),
            selections@,
            model,
            None,
            required,
        ),
    }
}

pub fn resolve_from_local_inspection(
    model: &WantedModel,
    engine_id: &Option<String>,
    inspection: &RuntimeLocalInspection,
) -> (result: Result<RuntimeSelection, RuntimePackError>)
    ensures
        match (result, inspected(*inspection, model@, optional(*engine_id))) {
            (Ok(selection), Ok(expected)) => selection@ == expected,
            (Err(error), Err(expected)) => error@ == expected,
            _ => false,
        },
{
    match &inspection.store_error {
        Some(error) => {
            return Err(
                RuntimePackError::Selection(
                    cat2("runtime store is unavailable: ", error.as_str()),
                ),
            );
        },
        None => {},
    }
    match &inspection.selections {
        Some(selections) => resolve_from_snapshot(
            &inspection.installed,
            selections,
            model,
            None,
            engine_id,
        ),
        None => {
            let detail = match &inspection.selections_error {
                Some(error) => error.as_str(),
                None => "unknown error",
            };
            Err(
                RuntimePackError::Selection(
                    cat2("runtime selections are unavailable: ", detail),
                ),
            )
        },
    }
}

/// Whether a runtime is one of the candidates, is installed in working order, is of the engine asked
/// for and can serve the format.
pub open spec fn can_serve(
    candidates: Seq<RuntimeCandidateView>,
    runtime: RuntimeView,
    format: Seq<char>,
    required: Option<Seq<char>>,
) -> bool {
    exists|i: int|
        0 <= i < candidates.len() && (#[trigger] candidates[i]).status.runtime == runtime
            && candidates[i].status.compatibility.usable() && candidates[i].model_refusal(format)
            is None && bound_to(candidates[i], required)
}

proof fn lemma_candidate_of(candidates: Seq<RuntimeCandidateView>, id: Seq<char>)
    ensures
        match candidate_of(candidates, id) {
            Some(candidate) => candidate.id() == id && exists|i: int|
                0 <= i < candidates.len() && #[trigger] candidates[i] == candidate,
            None => true,
        },
    decreases candidates.len(),
{
    if candidates.len() > 0 && candidates[0].id() != id {
        let rest = candidates.skip(1);
        lemma_candidate_of(rest, id);
        if candidate_of(rest, id) is Some {
            let i = choose|i: int|
                0 <= i < rest.len() && #[trigger] rest[i] == candidate_of(rest, id)->0;
            assert(candidates[i + 1] == rest[i]);
        }
    }
}

proof fn lemma_fitting(
    candidates: Seq<RuntimeCandidateView>,
    format: Seq<char>,
    required: Option<Seq<char>>,
    at: int,
)
    requires
        0 <= at < fitting(candidates, format, required, true).len(),
    ensures
        can_serve(
            candidates,
            fitting(candidates, format, required, true)[at].runtime,
            format,
            required,
        ),
    decreases candidates.len(),
{
    let rest = candidates.drop_last();
    let before = fitting(rest, format, required, true);
    let runtime = fitting(candidates, format, required, true)[at].runtime;
    if at < before.len() {
        lemma_fitting(rest, format, required, at);
        let i = choose|i: int|
            0 <= i < rest.len() && (#[trigger] rest[i]).status.runtime == runtime
                && rest[i].status.compatibility.usable() && rest[i].model_refusal(format) is None
                && bound_to(rest[i], required);
        assert(candidates[i] == rest[i]);
    } else {
        assert(candidates[candidates.len() - 1] == candidates.last());
    }
}

/// A runtime that is chosen is installed, works here, is of the engine asked for and can serve the
/// model; and the one that an invocation asks for is the one that it gets.
pub proof fn law_chosen_runtime_can_serve(
    candidates: Seq<RuntimeCandidateView>,
    selections: SelectionsView,
    model: WantedView,
    explicit: Option<Seq<char>>,
    required: Option<Seq<char>>,
)
    ensures
        match resolved(candidates, selections, model, explicit, required) {
            Ok(selection) => {
                &&& can_serve(candidates, selection.runtime, model.format, required)
                &&& explicit is Some ==> selection.runtime.manifest.runtime_id == explicit->0
                    && selection.source == RuntimeSelectionSource::Invocation
                &&& selection.source == RuntimeSelectionSource::ModelOverride
                    ==> selections.model_overrides.contains_key(model.id)
                    && selections.model_overrides[model.id]
                    == selection.runtime.manifest.runtime_id
                &&& selection.source == RuntimeSelectionSource::FormatDefault
                    ==> selections.format_defaults.contains_key(model.format)
                    && selections.format_defaults[model.format]
                    == selection.runtime.manifest.runtime_id
            },
            Err(_) => true,
        },
{
    if explicit is Some {
        lemma_candidate_of(candidates, explicit->0);
    }
    if selections.model_overrides.contains_key(model.id) {
        lemma_candidate_of(candidates, selections.model_overrides[model.id]);
    }
    if selections.format_defaults.contains_key(model.format) {
        lemma_candidate_of(candidates, selections.format_defaults[model.format]);
    }
    let ranked = ranking(candidates, model.format, required, true);
    if ranked.len() > 0 {
        let fits = fitting(candidates, model.format, required, true);
        let order = |a: RankedRuntimeView, b: RankedRuntimeView| rank_order(a, b) == Order::Less;
        crate::sorting::law_sorted(fits, order);
        ranked.to_multiset_ensures();
        fits.to_multiset_ensures();
        assert(ranked.contains(ranked[0]));
        assert(ranked.to_multiset().count(ranked[0]) > 0);
        assert(fits.contains(ranked[0]));
        let at = choose|at: int| 0 <= at < fits.len() && fits[at] == ranked[0];
        lemma_fitting(candidates, model.format, required, at);
    }
}

/// Where no engine is asked for, a runtime chosen for the model is used or the reason that it cannot
/// be is told: nothing takes its place in silence.
pub proof fn law_choices_are_not_replaced(
    candidates: Seq<RuntimeCandidateView>,
    selections: SelectionsView,
    model: WantedView,
)
    ensures
        selections.model_overrides.contains_key(model.id) ==> match resolved(
            candidates,
            selections,
            model,
            None,
            None,
        ) {
            Ok(selection) => selection.runtime.manifest.runtime_id
                == selections.model_overrides[model.id] && selection.notices.len() == 0,
            Err(error) => chosen(
                candidates,
                selections.model_overrides[model.id],
                model.format,
            ) == Err::<RuntimeCandidateView, PackErrorView>(error),
        },
        !selections.model_overrides.contains_key(model.id)
            && selections.format_defaults.contains_key(model.format) ==> match resolved(
            candidates,
            selections,
            model,
            None,
            None,
        ) {
            Ok(selection) => selection.runtime.manifest.runtime_id
                == selections.format_defaults[model.format] && selection.notices.len() == 0,
            Err(error) => chosen(
                candidates,
                selections.format_defaults[model.format],
                model.format,
            ) == Err::<RuntimeCandidateView, PackErrorView>(error),
        },
{
    if selections.model_overrides.contains_key(model.id) {
        lemma_candidate_of(candidates, selections.model_overrides[model.id]);
    }
    if selections.format_defaults.contains_key(model.format) {
        lemma_candidate_of(candidates, selections.format_defaults[model.format]);
    }
}

/// A model gets the runtime that was chosen for it: where choosing it was not refused, it works here
/// and is of the engine asked for, the next resolution selects it.
pub proof fn law_selected_runtime_is_used(
    candidates: Seq<RuntimeCandidateView>,
    selections: SelectionsView,
    model: WantedView,
    runtime_id: Seq<char>,
    preference: RuntimeUpdatePreference,
    required: Option<Seq<char>>,
)
    requires
        model_choice_refusal(candidates, runtime_id, model.format) is None,
        candidate_of(candidates, runtime_id)->0.status.compatibility.usable(),
        bound_to(candidate_of(candidates, runtime_id)->0, required),
    ensures
        resolved(
            candidates,
            selections.model_selected(model.id, runtime_id, preference),
            model,
            None,
            required,
        ) == Ok::<RuntimeSelectionView, PackErrorView>(
            selection(
                candidate_of(candidates, runtime_id)->0,
                RuntimeSelectionSource::ModelOverride,
                Seq::empty(),
            ),
        ),
        !selections.model_overrides.contains_key(model.id) ==> resolved(
            candidates,
            selections.format_selected(model.format, runtime_id, preference),
            model,
            None,
            required,
        ) == Ok::<RuntimeSelectionView, PackErrorView>(
            selection(
                candidate_of(candidates, runtime_id)->0,
                RuntimeSelectionSource::FormatDefault,
                Seq::empty(),
            ),
        ),
{
}

proof fn lemma_some_fits(
    candidates: Seq<RuntimeCandidateView>,
    format: Seq<char>,
    required: Option<Seq<char>>,
    at: int,
)
    requires
        0 <= at < candidates.len(),
        candidates[at].status.compatibility.usable(),
        candidates[at].model_refusal(format) is None,
        bound_to(candidates[at], required),
    ensures
        fitting(candidates, format, required, true).len() > 0,
    decreases candidates.len(),
{
    if at < candidates.len() - 1 {
        assert(candidates.drop_last()[at] == candidates[at]);
        lemma_some_fits(candidates.drop_last(), format, required, at);
    }
}

/// Where nothing is chosen, a model is refused only if no runtime can serve it.
pub proof fn law_some_runtime_is_found(
    candidates: Seq<RuntimeCandidateView>,
    selections: SelectionsView,
    model: WantedView,
    required: Option<Seq<char>>,
)
    requires
        !selections.model_overrides.contains_key(model.id),
        !selections.format_defaults.contains_key(model.format),
    ensures
        resolved(candidates, selections, model, None, required) is Ok <==> exists|i: int|
            0 <= i < candidates.len() && (#[trigger] candidates[i]).status.compatibility.usable()
                && candidates[i].model_refusal(model.format) is None && bound_to(
                candidates[i],
                required,
            ),
{
    let fits = fitting(candidates, model.format, required, true);
    let order = |a: RankedRuntimeView, b: RankedRuntimeView| rank_order(a, b) == Order::Less;
    crate::sorting::law_sorted(fits, order);
    if exists|i: int|
        0 <= i < candidates.len() && (#[trigger] candidates[i]).status.compatibility.usable()
            && candidates[i].model_refusal(model.format) is None && bound_to(
            candidates[i],
            required,
        ) {
        let i = choose|i: int|
            0 <= i < candidates.len() && (#[trigger] candidates[i]).status.compatibility.usable()
                && candidates[i].model_refusal(model.format) is None && bound_to(
                candidates[i],
                required,
            );
        lemma_some_fits(candidates, model.format, required, i);
    } else if fits.len() > 0 {
        lemma_fitting(candidates, model.format, required, 0);
    }
}

proof fn lemma_fits_come_from_candidates(
    candidates: Seq<RuntimeCandidateView>,
    format: Seq<char>,
    required: Option<Seq<char>>,
    serving: bool,
    ranked: RankedRuntimeView,
)
    ensures
        fitting(candidates, format, required, serving).contains(ranked) <==> exists|i: int|
            0 <= i < candidates.len() && verdict(#[trigger] candidates[i], format, required, serving)
                == VerdictView::Fits(ranked),
    decreases candidates.len(),
{
    let fits = fitting(candidates, format, required, serving);
    if candidates.len() > 0 {
        let rest = candidates.drop_last();
        let before = fitting(rest, format, required, serving);
        let last = verdict(candidates.last(), format, required, serving);
        lemma_fits_come_from_candidates(rest, format, required, serving, ranked);
        assert(candidates[candidates.len() - 1] == candidates.last());
        if before.contains(ranked) {
            let i = choose|i: int|
                0 <= i < rest.len() && verdict(#[trigger] rest[i], format, required, serving)
                    == VerdictView::Fits(ranked);
            assert(candidates[i] == rest[i]);
            assert(fits[before.index_of(ranked)] == ranked);
        }
        if last == VerdictView::Fits(ranked) {
            assert(fits[fits.len() - 1] == ranked);
        }
        if exists|i: int|
            0 <= i < candidates.len() && verdict(#[trigger] candidates[i], format, required, serving)
                == VerdictView::Fits(ranked) {
            let i = choose|i: int|
                0 <= i < candidates.len() && verdict(
                    #[trigger] candidates[i],
                    format,
                    required,
                    serving,
                ) == VerdictView::Fits(ranked);
            if i < rest.len() {
                assert(rest[i] == candidates[i]);
            }
        }
        if fits.contains(ranked) && !before.contains(ranked) {
            let k = fits.index_of(ranked);
            if k < before.len() {
                assert(before[k] == ranked);
            }
        }
    } else {
        assert(!fits.contains(ranked));
    }
}

/// What is ranked of a candidate that can serve a format.
spec fn as_ranked(candidate: RuntimeCandidateView, format: Seq<char>) -> RankedRuntimeView {
    RankedRuntimeView {
        runtime: candidate.status.runtime,
        compatibility: candidate.model_fit(format)->Ok_0,
        preference: candidate.of_model().preference,
        accelerator_binding: candidate.of_model().accelerator_binding,
    }
}

/// Whether a candidate is installed in working order, is of the engine asked for and can serve a
/// format.
pub open spec fn is_able(
    candidate: RuntimeCandidateView,
    format: Seq<char>,
    required: Option<Seq<char>>,
) -> bool {
    &&& !(candidate.status.compatibility is Incompatible)
    &&& candidate.status.runtime.manifest.supported_formats.contains(format)
    &&& required is Some ==> candidate.status.runtime.manifest.identity.engine_id == required->0
    &&& candidate.answers is Some
    &&& candidate.of_runtime().management is None
    &&& candidate.of_runtime().runtime is None
    &&& candidate.of_model().accepts_format
    &&& candidate.of_model().model is None
    &&& !(candidate.host is Incompatible)
    &&& !(candidate.of_model().runtime_model is Incompatible)
}

/// Whether a candidate needs attention to serve a model: by the host or by the model.
pub open spec fn needs_attention(candidate: RuntimeCandidateView) -> bool {
    candidate.host is NeedsAttention || candidate.of_model().runtime_model is NeedsAttention
}

/// Whether a candidate is recommended for a model, by the host and by the model.
pub open spec fn is_recommended(candidate: RuntimeCandidateView) -> bool {
    candidate.host is Recommended && candidate.of_model().runtime_model is Recommended
}

/// Whether nothing but how recent they are tells two candidates apart: they fit as well, their engines
/// prefer them as much, and both are managed here or neither is.
pub open spec fn on_a_par(a: RuntimeCandidateView, b: RuntimeCandidateView) -> bool {
    &&& needs_attention(a) == needs_attention(b)
    &&& is_recommended(a) == is_recommended(b)
    &&& a.of_model().preference == b.of_model().preference
    &&& (a.status.runtime.manifest.acquisition_method == RuntimeAcquisitionMethod::ExternalBinary)
        == (b.status.runtime.manifest.acquisition_method
        == RuntimeAcquisitionMethod::ExternalBinary)
}

/// A runtime can serve a format exactly if it supports it, its engine is registered, manages runtimes
/// here, takes the runtime, the format and the model, and neither the host nor the model rules it out.
pub proof fn law_able_runtimes_are_not_refused(
    candidate: RuntimeCandidateView,
    format: Seq<char>,
    required: Option<Seq<char>>,
)
    ensures
        is_able(candidate, format, required) <==> !(candidate.status.compatibility is Incompatible)
            && candidate.model_refusal(format) is None && bound_to(candidate, required),
        is_able(candidate, format, required) ==> {
            let fit = candidate.model_fit(format);
            &&& fit is Ok
            &&& fit->Ok_0 is NeedsAttention <==> needs_attention(candidate)
            &&& fit->Ok_0 is Recommended <==> is_recommended(candidate)
            &&& !(fit->Ok_0 is Incompatible)
        },
{
}

proof fn lemma_best_fit(
    candidates: Seq<RuntimeCandidateView>,
    format: Seq<char>,
    required: Option<Seq<char>>,
    ahead: spec_fn(RankedRuntimeView, RankedRuntimeView) -> bool,
) -> (at: int)
    requires
        ranking(candidates, format, required, true).len() > 0,
        refines(
            fitting(candidates, format, required, true),
            |a: RankedRuntimeView, b: RankedRuntimeView| rank_order(a, b) == Order::Less,
            ahead,
        ),
    ensures
        0 <= at < candidates.len(),
        is_able(candidates[at], format, required),
        ranking(candidates, format, required, true)[0] == as_ranked(candidates[at], format),
        forall|i: int|
            0 <= i < candidates.len() && is_able(#[trigger] candidates[i], format, required)
                ==> !ahead(as_ranked(candidates[i], format), as_ranked(candidates[at], format)),
{
    let fits = fitting(candidates, format, required, true);
    let order = |a: RankedRuntimeView, b: RankedRuntimeView| rank_order(a, b) == Order::Less;
    let ranked = sorted(fits, order);
    law_sorted(fits, order);
    law_sorted_by_key(fits, order, ahead);
    ranked.to_multiset_ensures();
    fits.to_multiset_ensures();
    assert(ranked.contains(ranked[0]));
    assert(ranked.to_multiset().count(ranked[0]) > 0);
    assert(fits.contains(ranked[0]));
    lemma_fits_come_from_candidates(candidates, format, required, true, ranked[0]);
    let at = choose|i: int|
        0 <= i < candidates.len() && verdict(#[trigger] candidates[i], format, required, true)
            == VerdictView::Fits(ranked[0]);
    assert forall|i: int|
        0 <= i < candidates.len() && is_able(#[trigger] candidates[i], format, required) implies !ahead(
        as_ranked(candidates[i], format),
        as_ranked(candidates[at], format),
    ) by {
        let one = as_ranked(candidates[i], format);
        assert(verdict(candidates[i], format, required, true) == VerdictView::Fits(one));
        lemma_fits_come_from_candidates(candidates, format, required, true, one);
        let k = fits.index_of(one);
        assert(!ahead(fits[k], ranked[0]));
    }
    at
}

/// How two that fit compare before it matters how recent they are.
#[verifier::opaque]
spec fn key_less(a: RankedRuntimeView, b: RankedRuntimeView) -> bool {
    let (x, y) = (
        acquisition_order(a.runtime.manifest.acquisition_method),
        acquisition_order(b.runtime.manifest.acquisition_method),
    );
    a.compatibility.rank() < b.compatibility.rank() || a.compatibility.rank()
        == b.compatibility.rank() && (a.preference < b.preference || a.preference == b.preference && x
        < y)
}

spec fn key_equal(a: RankedRuntimeView, b: RankedRuntimeView) -> bool {
    !key_less(a, b) && !key_less(b, a)
}

proof fn lemma_fallback(
    candidates: Seq<RuntimeCandidateView>,
    selections: SelectionsView,
    model: WantedView,
    explicit: Option<Seq<char>>,
    required: Option<Seq<char>>,
)
    requires
        resolved(candidates, selections, model, explicit, required) is Ok,
        resolved(candidates, selections, model, explicit, required)->Ok_0.source
            == RuntimeSelectionSource::Fallback,
    ensures
        ({
            let ranked = ranking(candidates, model.format, required, true);
            let selected = resolved(candidates, selections, model, explicit, required)->Ok_0;
            ranked.len() > 0 && selected.runtime == ranked[0].runtime
                && selected.accelerator_binding == ranked[0].accelerator_binding
        }),
{
}

/// Whether a candidate is no worse than another: it needs attention only if the other does, it is
/// recommended if the other is; where they fit as well, the engine of the other does not prefer that
/// more; and where they are preferred as much, it is managed here if the other is.
pub open spec fn is_no_worse(best: RuntimeCandidateView, other: RuntimeCandidateView) -> bool {
    let as_fit = needs_attention(best) == needs_attention(other) && is_recommended(best)
        == is_recommended(other);
    &&& needs_attention(best) ==> needs_attention(other)
    &&& is_recommended(other) ==> is_recommended(best)
    &&& as_fit ==> best.of_model().preference <= other.of_model().preference
    &&& as_fit && best.of_model().preference == other.of_model().preference
        && best.status.runtime.manifest.acquisition_method
        == RuntimeAcquisitionMethod::ExternalBinary
        ==> other.status.runtime.manifest.acquisition_method
        == RuntimeAcquisitionMethod::ExternalBinary
}

/// Whether the candidate at a place can serve a format, and none that can is better.
pub open spec fn none_is_better(
    candidates: Seq<RuntimeCandidateView>,
    format: Seq<char>,
    required: Option<Seq<char>>,
    at: int,
) -> bool {
    &&& is_able(candidates[at], format, required)
    &&& forall|i: int|
        0 <= i < candidates.len() && is_able(#[trigger] candidates[i], format, required)
            ==> is_no_worse(candidates[at], candidates[i])
}

/// Whether the candidate at a place can serve a format, and none that can and is on a par with it is
/// more recent.
pub open spec fn none_is_more_recent(
    candidates: Seq<RuntimeCandidateView>,
    format: Seq<char>,
    required: Option<Seq<char>>,
    at: int,
) -> bool {
    &&& is_able(candidates[at], format, required)
    &&& forall|i: int|
        0 <= i < candidates.len() && is_able(#[trigger] candidates[i], format, required)
            && on_a_par(candidates[i], candidates[at]) ==> resolver_recency(
            candidates[i].status.runtime,
            candidates[at].status.runtime,
        ) != Order::Greater
}

/// Whether the candidate at a place can serve a format, and none that can and is on a par with it has
/// a higher version.
pub open spec fn none_is_of_higher_version(
    candidates: Seq<RuntimeCandidateView>,
    format: Seq<char>,
    required: Option<Seq<char>>,
    at: int,
) -> bool {
    &&& is_able(candidates[at], format, required)
    &&& forall|i: int|
        0 <= i < candidates.len() && is_able(#[trigger] candidates[i], format, required)
            && on_a_par(candidates[i], candidates[at]) ==> version_order(
            candidates[i].status.runtime.manifest.identity.version,
            candidates[at].status.runtime.manifest.identity.version,
        ) != Order::Greater
}

proof fn lemma_key_compares(
    best: RuntimeCandidateView,
    other: RuntimeCandidateView,
    format: Seq<char>,
    required: Option<Seq<char>>,
)
    requires
        is_able(best, format, required),
        is_able(other, format, required),
    ensures
        !key_less(as_ranked(other, format), as_ranked(best, format)) ==> is_no_worse(best, other),
        key_equal(as_ranked(other, format), as_ranked(best, format)) == on_a_par(other, best),
{
    reveal(key_less);
    law_able_runtimes_are_not_refused(best, format, required);
    law_able_runtimes_are_not_refused(other, format, required);
}

proof fn lemma_rank_by_key(a: RankedRuntimeView, b: RankedRuntimeView, c: RankedRuntimeView)
    ensures
        key_less(a, b) ==> rank_order(a, b) == Order::Less,
        rank_order(a, b) == Order::Less ==> !key_less(b, a),
        !key_less(a, b) && !key_less(b, c) ==> !key_less(a, c),
        key_equal(a, b) ==> rank_order(a, b) == resolver_recency(b.runtime, a.runtime).or(
            text_order(a.runtime.manifest.runtime_id, b.runtime.manifest.runtime_id),
        ),
{
    reveal(key_less);
}

proof fn lemma_key_ranks(list: Seq<RankedRuntimeView>)
    ensures
        refines(
            list,
            |a: RankedRuntimeView, b: RankedRuntimeView| rank_order(a, b) == Order::Less,
            |a: RankedRuntimeView, b: RankedRuntimeView| key_less(a, b),
        ),
{
    let order = |a: RankedRuntimeView, b: RankedRuntimeView| rank_order(a, b) == Order::Less;
    let ahead = |a: RankedRuntimeView, b: RankedRuntimeView| key_less(a, b);
    assert forall|a: RankedRuntimeView, b: RankedRuntimeView|
        list.contains(a) && list.contains(b) && #[trigger] ahead(a, b) implies order(a, b) by {
        lemma_rank_by_key(a, b, b);
    }
    assert forall|a: RankedRuntimeView, b: RankedRuntimeView|
        list.contains(a) && list.contains(b) && #[trigger] order(a, b) implies !ahead(b, a) by {
        lemma_rank_by_key(a, b, b);
    }
    assert forall|a: RankedRuntimeView, b: RankedRuntimeView, c: RankedRuntimeView|
        list.contains(a) && list.contains(b) && list.contains(c) && !#[trigger] ahead(a, b)
            && !#[trigger] ahead(b, c) implies !ahead(a, c) by {
        lemma_rank_by_key(a, b, c);
    }
}

/// A runtime that nobody chose is the best there is: it can serve the model, and it is no worse than
/// any other that can. With it comes the accelerator that its engine would use.
pub proof fn law_fallback_is_the_best(
    candidates: Seq<RuntimeCandidateView>,
    selections: SelectionsView,
    model: WantedView,
    explicit: Option<Seq<char>>,
    required: Option<Seq<char>>,
)
    requires
        resolved(candidates, selections, model, explicit, required) is Ok,
        resolved(candidates, selections, model, explicit, required)->Ok_0.source
            == RuntimeSelectionSource::Fallback,
    ensures
        ({
            let selected = resolved(candidates, selections, model, explicit, required)->Ok_0;
            exists|at: int|
                0 <= at < candidates.len() && candidates[at].status.runtime == selected.runtime
                    && candidates[at].of_model().accelerator_binding
                    == selected.accelerator_binding && #[trigger] none_is_better(
                    candidates,
                    model.format,
                    required,
                    at,
                )
        }),
{
    let format = model.format;
    let ahead = |a: RankedRuntimeView, b: RankedRuntimeView| key_less(a, b);
    lemma_fallback(candidates, selections, model, explicit, required);
    lemma_key_ranks(fitting(candidates, format, required, true));
    let at = lemma_best_fit(candidates, format, required, ahead);
    assert forall|i: int|
        0 <= i < candidates.len() && is_able(
            #[trigger] candidates[i],
            format,
            required,
        ) implies is_no_worse(candidates[at], candidates[i]) by {
        assert(!ahead(as_ranked(candidates[i], format), as_ranked(candidates[at], format)));
        lemma_key_compares(candidates[at], candidates[i], format, required);
    }
    assert(none_is_better(candidates, format, required, at));
}

/// Whether recency ranks three runtimes, as an order does.
pub open spec fn recency_chains(a: RuntimeView, b: RuntimeView, c: RuntimeView) -> bool {
    resolver_recency(a, b) != Order::Greater && resolver_recency(b, c) != Order::Greater
        ==> resolver_recency(a, c) != Order::Greater
}

/// Whether recency ranks the candidates that can serve a format and that are on a par.
pub open spec fn recency_ranks(
    candidates: Seq<RuntimeCandidateView>,
    format: Seq<char>,
    required: Option<Seq<char>>,
) -> bool {
    forall|i: int, j: int, k: int|
        0 <= i < candidates.len() && 0 <= j < candidates.len() && 0 <= k < candidates.len()
            && is_able(candidates[i], format, required) && is_able(candidates[j], format, required)
            && is_able(candidates[k], format, required) && on_a_par(candidates[i], candidates[j])
            && on_a_par(candidates[j], candidates[k]) ==> #[trigger] recency_chains(
            candidates[i].status.runtime,
            candidates[j].status.runtime,
            candidates[k].status.runtime,
        )
}

proof fn lemma_fit_has_a_candidate(
    candidates: Seq<RuntimeCandidateView>,
    format: Seq<char>,
    required: Option<Seq<char>>,
    ranked: RankedRuntimeView,
) -> (at: int)
    requires
        fitting(candidates, format, required, true).contains(ranked),
    ensures
        0 <= at < candidates.len(),
        is_able(candidates[at], format, required),
        as_ranked(candidates[at], format) == ranked,
{
    lemma_fits_come_from_candidates(candidates, format, required, true, ranked);
    let at = choose|i: int|
        0 <= i < candidates.len() && verdict(#[trigger] candidates[i], format, required, true)
            == VerdictView::Fits(ranked);
    law_able_runtimes_are_not_refused(candidates[at], format, required);
    at
}

proof fn lemma_recency_ranks(
    candidates: Seq<RuntimeCandidateView>,
    format: Seq<char>,
    required: Option<Seq<char>>,
    a: RankedRuntimeView,
    b: RankedRuntimeView,
    c: RankedRuntimeView,
)
    requires
        recency_ranks(candidates, format, required),
        fitting(candidates, format, required, true).contains(a),
        fitting(candidates, format, required, true).contains(b),
        fitting(candidates, format, required, true).contains(c),
        key_equal(a, b),
        key_equal(b, c),
    ensures
        recency_chains(a.runtime, b.runtime, c.runtime),
{
    let i = lemma_fit_has_a_candidate(candidates, format, required, a);
    let j = lemma_fit_has_a_candidate(candidates, format, required, b);
    let k = lemma_fit_has_a_candidate(candidates, format, required, c);
    lemma_key_compares(candidates[j], candidates[i], format, required);
    lemma_key_compares(candidates[k], candidates[j], format, required);
    assert(recency_chains(
        candidates[i].status.runtime,
        candidates[j].status.runtime,
        candidates[k].status.runtime,
    ));
}

#[verifier::opaque]
spec fn more_recent(a: RankedRuntimeView, b: RankedRuntimeView) -> bool {
    key_less(a, b) || key_equal(a, b) && resolver_recency(a.runtime, b.runtime) == Order::Greater
}

proof fn lemma_rank_by_recency(a: RankedRuntimeView, b: RankedRuntimeView)
    ensures
        more_recent(a, b) ==> rank_order(a, b) == Order::Less,
        rank_order(a, b) == Order::Less ==> !more_recent(b, a),
{
    reveal(more_recent);
    crate::updates::law_recency_flips(a.runtime, b.runtime, true, false);
    lemma_rank_by_key(a, b, b);
}

proof fn lemma_more_recent_chains(
    candidates: Seq<RuntimeCandidateView>,
    format: Seq<char>,
    required: Option<Seq<char>>,
    a: RankedRuntimeView,
    b: RankedRuntimeView,
    c: RankedRuntimeView,
)
    requires
        recency_ranks(candidates, format, required),
        fitting(candidates, format, required, true).contains(a),
        fitting(candidates, format, required, true).contains(b),
        fitting(candidates, format, required, true).contains(c),
        !more_recent(a, b),
        !more_recent(b, c),
    ensures
        !more_recent(a, c),
{
    reveal(more_recent);
    lemma_rank_by_key(a, b, c);
    lemma_rank_by_key(b, c, a);
    lemma_rank_by_key(c, a, b);
    lemma_rank_by_key(c, b, a);
    if key_equal(a, b) && key_equal(b, c) {
        lemma_recency_ranks(candidates, format, required, a, b, c);
    }
}

proof fn lemma_none_more_recent(
    best: RuntimeCandidateView,
    other: RuntimeCandidateView,
    format: Seq<char>,
    required: Option<Seq<char>>,
)
    requires
        is_able(best, format, required),
        is_able(other, format, required),
        on_a_par(other, best),
        !more_recent(as_ranked(other, format), as_ranked(best, format)),
    ensures
        resolver_recency(other.status.runtime, best.status.runtime) != Order::Greater,
{
    reveal(more_recent);
    lemma_key_compares(best, other, format, required);
}

/// A runtime that nobody chose is the most recent of those on a par with it, where recency ranks them:
/// none that can serve as well is more recent.
pub proof fn law_fallback_is_the_most_recent(
    candidates: Seq<RuntimeCandidateView>,
    selections: SelectionsView,
    model: WantedView,
    explicit: Option<Seq<char>>,
    required: Option<Seq<char>>,
)
    requires
        resolved(candidates, selections, model, explicit, required) is Ok,
        resolved(candidates, selections, model, explicit, required)->Ok_0.source
            == RuntimeSelectionSource::Fallback,
        recency_ranks(candidates, model.format, required),
    ensures
        ({
            let selected = resolved(candidates, selections, model, explicit, required)->Ok_0;
            exists|at: int|
                0 <= at < candidates.len() && candidates[at].status.runtime == selected.runtime
                    && #[trigger] none_is_more_recent(candidates, model.format, required, at)
        }),
{
    let format = model.format;
    let fits = fitting(candidates, format, required, true);
    let ahead = |a: RankedRuntimeView, b: RankedRuntimeView| more_recent(a, b);
    let order = |a: RankedRuntimeView, b: RankedRuntimeView| rank_order(a, b) == Order::Less;
    lemma_fallback(candidates, selections, model, explicit, required);
    assert(refines(fits, order, ahead)) by {
        assert forall|a: RankedRuntimeView, b: RankedRuntimeView|
            fits.contains(a) && fits.contains(b) && #[trigger] ahead(a, b) implies order(a, b) by {
            lemma_rank_by_recency(a, b);
        }
        assert forall|a: RankedRuntimeView, b: RankedRuntimeView|
            fits.contains(a) && fits.contains(b) && #[trigger] order(a, b) implies !ahead(b, a) by {
            lemma_rank_by_recency(a, b);
        }
        assert forall|a: RankedRuntimeView, b: RankedRuntimeView, c: RankedRuntimeView|
            fits.contains(a) && fits.contains(b) && fits.contains(c) && !#[trigger] ahead(a, b)
                && !#[trigger] ahead(b, c) implies !ahead(a, c) by {
            lemma_more_recent_chains(candidates, format, required, a, b, c);
        }
    }
    let at = lemma_best_fit(candidates, format, required, ahead);
    assert forall|i: int|
        0 <= i < candidates.len() && is_able(#[trigger] candidates[i], format, required)
            && on_a_par(candidates[i], candidates[at]) implies resolver_recency(
        candidates[i].status.runtime,
        candidates[at].status.runtime,
    ) != Order::Greater by {
        assert(!ahead(as_ranked(candidates[i], format), as_ranked(candidates[at], format)));
        lemma_none_more_recent(candidates[at], candidates[i], format, required);
    }
    assert(none_is_more_recent(candidates, format, required, at));
}

#[verifier::opaque]
spec fn higher_version(a: RankedRuntimeView, b: RankedRuntimeView) -> bool {
    key_less(a, b) || key_equal(a, b) && version_order(
        a.runtime.manifest.identity.version,
        b.runtime.manifest.identity.version,
    ) == Order::Greater
}

proof fn lemma_rank_by_version(a: RankedRuntimeView, b: RankedRuntimeView, c: RankedRuntimeView)
    requires
        a.runtime.manifest.source_build is None,
        b.runtime.manifest.source_build is None,
        c.runtime.manifest.source_build is None,
    ensures
        higher_version(a, b) ==> rank_order(a, b) == Order::Less,
        rank_order(a, b) == Order::Less ==> !higher_version(b, a),
        !higher_version(a, b) && !higher_version(b, c) ==> !higher_version(a, c),
{
    reveal(higher_version);
    law_versions_are_ordered(
        a.runtime.manifest.identity.version,
        b.runtime.manifest.identity.version,
        c.runtime.manifest.identity.version,
    );
    lemma_rank_by_key(a, b, c);
    lemma_rank_by_key(b, c, a);
    lemma_rank_by_key(c, a, b);
    lemma_rank_by_key(c, b, a);
}

/// Among released builds on a par, a runtime that nobody chose has the highest version.
pub proof fn law_fallback_has_the_highest_version(
    candidates: Seq<RuntimeCandidateView>,
    selections: SelectionsView,
    model: WantedView,
    explicit: Option<Seq<char>>,
    required: Option<Seq<char>>,
)
    requires
        resolved(candidates, selections, model, explicit, required) is Ok,
        resolved(candidates, selections, model, explicit, required)->Ok_0.source
            == RuntimeSelectionSource::Fallback,
        forall|i: int|
            0 <= i < candidates.len() && is_able(#[trigger] candidates[i], model.format, required)
                ==> candidates[i].status.runtime.manifest.source_build is None,
    ensures
        ({
            let selected = resolved(candidates, selections, model, explicit, required)->Ok_0;
            exists|at: int|
                0 <= at < candidates.len() && candidates[at].status.runtime == selected.runtime
                    && #[trigger] none_is_of_higher_version(candidates, model.format, required, at)
        }),
{
    let format = model.format;
    let fits = fitting(candidates, format, required, true);
    let ahead = |a: RankedRuntimeView, b: RankedRuntimeView| higher_version(a, b);
    let order = |a: RankedRuntimeView, b: RankedRuntimeView| rank_order(a, b) == Order::Less;
    lemma_fallback(candidates, selections, model, explicit, required);
    assert(refines(fits, order, ahead)) by {
        assert forall|a: RankedRuntimeView| #[trigger] fits.contains(
            a,
        ) implies a.runtime.manifest.source_build is None by {
            let i = lemma_fit_has_a_candidate(candidates, format, required, a);
        }
        assert forall|a: RankedRuntimeView, b: RankedRuntimeView|
            fits.contains(a) && fits.contains(b) && #[trigger] ahead(a, b) implies order(a, b) by {
            lemma_rank_by_version(a, b, b);
        }
        assert forall|a: RankedRuntimeView, b: RankedRuntimeView|
            fits.contains(a) && fits.contains(b) && #[trigger] order(a, b) implies !ahead(b, a) by {
            lemma_rank_by_version(a, b, b);
        }
        assert forall|a: RankedRuntimeView, b: RankedRuntimeView, c: RankedRuntimeView|
            fits.contains(a) && fits.contains(b) && fits.contains(c) && !#[trigger] ahead(a, b)
                && !#[trigger] ahead(b, c) implies !ahead(a, c) by {
            lemma_rank_by_version(a, b, c);
        }
    }
    let at = lemma_best_fit(candidates, format, required, ahead);
    assert forall|i: int|
        0 <= i < candidates.len() && is_able(#[trigger] candidates[i], format, required)
            && on_a_par(candidates[i], candidates[at]) implies version_order(
        candidates[i].status.runtime.manifest.identity.version,
        candidates[at].status.runtime.manifest.identity.version,
    ) != Order::Greater by {
        lemma_key_compares(candidates[at], candidates[i], format, required);
        assert(!ahead(as_ranked(candidates[i], format), as_ranked(candidates[at], format)));
        reveal(higher_version);
    }
    assert(none_is_of_higher_version(candidates, format, required, at));
}

proof fn lemma_first_candidate(candidates: Seq<RuntimeCandidateView>, at: int)
    requires
        0 <= at < candidates.len(),
        forall|k: int|
            0 <= k < at ==> (#[trigger] candidates[k]).status.runtime.manifest.runtime_id
                != candidates[at].status.runtime.manifest.runtime_id,
    ensures
        candidate_of(candidates, candidates[at].status.runtime.manifest.runtime_id) == Some(
            candidates[at],
        ),
    decreases at,
{
    if at > 0 {
        let rest = candidates.skip(1);
        assert(candidates[0].id() != candidates[at].id());
        assert(rest[at - 1] == candidates[at]);
        assert forall|k: int| 0 <= k < at - 1 implies (
        #[trigger] rest[k]).status.runtime.manifest.runtime_id
            != rest[at - 1].status.runtime.manifest.runtime_id by {
            assert(rest[k] == candidates[k + 1]);
        }
        lemma_first_candidate(rest, at - 1);
    }
}

proof fn lemma_no_candidate(candidates: Seq<RuntimeCandidateView>, id: Seq<char>)
    requires
        forall|k: int|
            0 <= k < candidates.len() ==> (
            #[trigger] candidates[k]).status.runtime.manifest.runtime_id != id,
    ensures
        candidate_of(candidates, id) is None,
    decreases candidates.len(),
{
    if candidates.len() > 0 {
        let rest = candidates.skip(1);
        assert(candidates[0].id() != id);
        assert forall|k: int| 0 <= k < rest.len() implies (
        #[trigger] rest[k]).status.runtime.manifest.runtime_id != id by {
            assert(rest[k] == candidates[k + 1]);
        }
        lemma_no_candidate(rest, id);
    }
}

/// Whether a resolution selects a candidate for a reason, with the accelerator that its engine would
/// use.
pub open spec fn selects(
    result: Result<RuntimeSelectionView, PackErrorView>,
    candidate: RuntimeCandidateView,
    source: RuntimeSelectionSource,
) -> bool {
    &&& result is Ok
    &&& result->Ok_0.runtime == candidate.status.runtime
    &&& result->Ok_0.source == source
    &&& result->Ok_0.accelerator_binding == candidate.binding()
}

/// What an invocation asks for comes before everything, what is chosen for the model before what is
/// chosen for its format, and that before the fallback: each is selected where it can serve, and where
/// it is of the engine asked for but cannot serve, the model is refused and nothing takes its place.
pub proof fn law_choices_have_precedence(
    candidates: Seq<RuntimeCandidateView>,
    selections: SelectionsView,
    model: WantedView,
    explicit: Option<Seq<char>>,
    required: Option<Seq<char>>,
    at: int,
)
    requires
        0 <= at < candidates.len(),
        forall|k: int|
            0 <= k < at ==> (#[trigger] candidates[k]).status.runtime.manifest.runtime_id
                != candidates[at].status.runtime.manifest.runtime_id,
    ensures
        ({
            let candidate = candidates[at];
            let id = candidate.status.runtime.manifest.runtime_id;
            let able = is_able(candidate, model.format, required);
            let result = resolved(candidates, selections, model, explicit, required);
            let of_engine = required is None
                || candidate.status.runtime.manifest.identity.engine_id == required->0;
            let for_model = explicit is None && selections.model_overrides.contains_key(model.id)
                && selections.model_overrides[model.id] == id;
            let for_format = explicit is None && !selections.model_overrides.contains_key(model.id)
                && selections.format_defaults.contains_key(model.format)
                && selections.format_defaults[model.format] == id;
            &&& explicit == Some(id) && able ==> selects(
                result,
                candidate,
                RuntimeSelectionSource::Invocation,
            )
            &&& explicit == Some(id) && !able ==> result is Err
            &&& for_model && able ==> selects(
                result,
                candidate,
                RuntimeSelectionSource::ModelOverride,
            )
            &&& for_format && able ==> selects(
                result,
                candidate,
                RuntimeSelectionSource::FormatDefault,
            )
            &&& (for_model || for_format) && of_engine && !able ==> result is Err
        }),
{
    lemma_first_candidate(candidates, at);
    law_able_runtimes_are_not_refused(candidates[at], model.format, required);
}

/// A runtime that is asked for or chosen but not installed is told of, and nothing takes its place.
pub proof fn law_missing_choices_are_told(
    candidates: Seq<RuntimeCandidateView>,
    selections: SelectionsView,
    model: WantedView,
    explicit: Option<Seq<char>>,
    required: Option<Seq<char>>,
    id: Seq<char>,
)
    requires
        forall|k: int|
            0 <= k < candidates.len() ==> (
            #[trigger] candidates[k]).status.runtime.manifest.runtime_id != id,
        explicit == Some(id) || explicit is None && selections.model_overrides.contains_key(model.id)
            && selections.model_overrides[model.id] == id || explicit is None
            && !selections.model_overrides.contains_key(model.id)
            && selections.format_defaults.contains_key(model.format)
            && selections.format_defaults[model.format] == id,
    ensures
        resolved(candidates, selections, model, explicit, required) == Err::<
            RuntimeSelectionView,
            PackErrorView,
        >(PackErrorView::NotInstalled(id)),
{
    lemma_no_candidate(candidates, id);
}

/// What is asked for by an invocation does not depend on what is chosen; and what is chosen for other
/// models and formats does not matter.
pub proof fn law_other_choices_do_not_matter(
    candidates: Seq<RuntimeCandidateView>,
    first: SelectionsView,
    second: SelectionsView,
    model: WantedView,
    explicit: Option<Seq<char>>,
    required: Option<Seq<char>>,
)
    requires
        explicit is Some || first.model_overrides.contains_key(model.id)
            == second.model_overrides.contains_key(model.id) && (
        first.model_overrides.contains_key(model.id) ==> first.model_overrides[model.id]
            == second.model_overrides[model.id]) && first.format_defaults.contains_key(model.format)
            == second.format_defaults.contains_key(model.format) && (
        first.format_defaults.contains_key(model.format) ==> first.format_defaults[model.format]
            == second.format_defaults[model.format]),
    ensures
        resolved(candidates, first, model, explicit, required) == resolved(
            candidates,
            second,
            model,
            explicit,
            required,
        ),
{
}

spec fn listed_ahead(a: FoundView, b: FoundView) -> bool {
    let engines = text_order(
        a.runtime.manifest.identity.engine_id,
        b.runtime.manifest.identity.engine_id,
    );
    let variants = text_order(
        a.runtime.manifest.identity.variant,
        b.runtime.manifest.identity.variant,
    );
    engines == Order::Less || engines == Order::Equal && (variants == Order::Less || variants
        == Order::Equal && a.runtime.manifest.source_build is None
        && b.runtime.manifest.source_build is None && version_order(
        a.runtime.manifest.identity.version,
        b.runtime.manifest.identity.version,
    ) == Order::Greater)
}

proof fn lemma_listed_ahead(a: FoundView, b: FoundView, c: FoundView)
    ensures
        listed_ahead(a, b) ==> listing_order(a, b) == Order::Less,
        listing_order(a, b) == Order::Less ==> !listed_ahead(b, a),
        a.runtime.manifest.source_build is None && b.runtime.manifest.source_build is None
            && c.runtime.manifest.source_build is None && !listed_ahead(a, b) && !listed_ahead(b, c)
            ==> !listed_ahead(a, c),
{
    let (x, y, z) = (a.runtime.manifest, b.runtime.manifest, c.runtime.manifest);
    lemma_text_order_flips(x.identity.engine_id, y.identity.engine_id);
    lemma_text_order_flips(y.identity.engine_id, z.identity.engine_id);
    lemma_text_order_flips(x.identity.engine_id, z.identity.engine_id);
    lemma_text_order_flips(x.identity.variant, y.identity.variant);
    lemma_text_order_flips(y.identity.variant, z.identity.variant);
    lemma_text_order_flips(x.identity.variant, z.identity.variant);
    lemma_text_order_equal(x.identity.engine_id, y.identity.engine_id);
    lemma_text_order_equal(y.identity.engine_id, z.identity.engine_id);
    lemma_text_order_equal(x.identity.variant, y.identity.variant);
    lemma_text_order_equal(y.identity.variant, z.identity.variant);
    if text_order(z.identity.engine_id, y.identity.engine_id) != Order::Greater && text_order(
        y.identity.engine_id,
        x.identity.engine_id,
    ) != Order::Greater {
        lemma_text_order_chains(z.identity.engine_id, y.identity.engine_id, x.identity.engine_id);
    }
    if text_order(z.identity.variant, y.identity.variant) != Order::Greater && text_order(
        y.identity.variant,
        x.identity.variant,
    ) != Order::Greater {
        lemma_text_order_chains(z.identity.variant, y.identity.variant, x.identity.variant);
    }
    law_versions_are_ordered(x.identity.version, y.identity.version, z.identity.version);
    law_versions_are_ordered(y.identity.version, z.identity.version, x.identity.version);
    crate::updates::law_recency_flips(a.runtime, b.runtime, true, false);
}

/// Released runtimes are listed by engine, then by variant, and then the higher version first; and the
/// list holds each that was found, as often as it was.
pub proof fn law_runtimes_are_listed_in_order(
    found: Seq<FoundView>,
    selections: SelectionsView,
    i: int,
    j: int,
)
    requires
        forall|k: int|
            0 <= k < found.len() ==> (#[trigger] found[k]).runtime.manifest.source_build is None,
        0 <= i < j < listed(found, selections).len(),
    ensures
        ({
            let (a, b) = (
                listed(found, selections)[i].runtime.manifest.identity,
                listed(found, selections)[j].runtime.manifest.identity,
            );
            &&& listed(found, selections).len() == found.len()
            &&& text_order(a.engine_id, b.engine_id) != Order::Greater
            &&& a.engine_id == b.engine_id ==> text_order(a.variant, b.variant) != Order::Greater
            &&& a.engine_id == b.engine_id && a.variant == b.variant ==> version_order(
                a.version,
                b.version,
            ) != Order::Less
        }),
{
    let before = |a: FoundView, b: FoundView| listing_order(a, b) == Order::Less;
    let ahead = |a: FoundView, b: FoundView| listed_ahead(a, b);
    let list = sorted(found, before);
    assert(refines(found, before, ahead)) by {
        assert forall|a: FoundView, b: FoundView|
            found.contains(a) && found.contains(b) && #[trigger] ahead(a, b) implies before(a, b) by {
            lemma_listed_ahead(a, b, b);
        }
        assert forall|a: FoundView, b: FoundView|
            found.contains(a) && found.contains(b) && #[trigger] before(a, b) implies !ahead(
            b,
            a,
        ) by {
            lemma_listed_ahead(a, b, b);
        }
        assert forall|a: FoundView, b: FoundView, c: FoundView|
            found.contains(a) && found.contains(b) && found.contains(c) && !#[trigger] ahead(a, b)
                && !#[trigger] ahead(b, c) implies !ahead(a, c) by {
            lemma_listed_ahead(a, b, c);
        }
    }
    law_sorted(found, before);
    law_sorted_by_key(found, before, ahead);
    assert(!ahead(list[j], list[i]));
    list.to_multiset_ensures();
    found.to_multiset_ensures();
    assert(list.contains(list[i]) && list.contains(list[j]));
    assert(list.to_multiset().count(list[i]) > 0 && list.to_multiset().count(list[j]) > 0);
    assert(found.contains(list[i]) && found.contains(list[j]));
    let (a, b) = (list[i].runtime.manifest.identity, list[j].runtime.manifest.identity);
    lemma_text_order_flips(a.engine_id, b.engine_id);
    lemma_text_order_flips(a.variant, b.variant);
    lemma_text_order_equal(a.engine_id, b.engine_id);
    lemma_text_order_equal(a.variant, b.variant);
    law_versions_are_ordered(a.version, b.version, b.version);
}

/// What is told of each runtime is of that runtime: the badge goes to it where none of its engine is of
/// a more recent lineage, and where it has the badge alone under its identifier, only there; how it fits
/// is what its engine and the host say; and it is shown as chosen exactly where something leads to it.
pub proof fn law_statuses_tell_of_their_runtimes(
    found: Seq<FoundView>,
    selections: SelectionsView,
    at: int,
)
    requires
        0 <= at < found.len(),
    ensures
        ({
            let status = assessed(found, selections)[at];
            let one = found[at];
            let newest = forall|i: int|
                0 <= i < found.len() && (#[trigger] found[i]).runtime.manifest.identity.engine_id
                    == one.runtime.manifest.identity.engine_id ==> recency(
                    found[i].runtime,
                    one.runtime,
                    true,
                    true,
                ) != Order::Greater;
            &&& status.runtime == one.runtime
            &&& newest ==> status.latest_installed
            &&& status.latest_installed && (forall|i: int|
                0 <= i < found.len() && i != at ==> (
                #[trigger] found[i]).runtime.manifest.runtime_id
                    != one.runtime.manifest.runtime_id) ==> newest
            &&& one.answers is None ==> status.compatibility is Incompatible
            &&& one.answers is Some && (one.answers->0.management is Some || one.answers->0.runtime
                is Some) ==> status.compatibility is Incompatible
            &&& one.answers is Some && one.answers->0.management is None && one.answers->0.runtime
                is None ==> status.compatibility == one.host
            &&& status.selected_for == selections.uses(one.runtime.manifest.runtime_id)
        }),
{
    let one = found[at];
    if is_newest(found, one.runtime) {
        assert(has_badge(found, one.runtime.manifest.runtime_id));
    }
    if has_badge(found, one.runtime.manifest.runtime_id) {
        let i = choose|i: int|
            0 <= i < found.len() && (#[trigger] found[i]).runtime.manifest.runtime_id
                == one.runtime.manifest.runtime_id && is_newest(found, found[i].runtime);
        assert(is_newest(found, found[i].runtime));
    }
}

/// A runtime can be chosen for a format where it is installed, supports the format, and neither its engine
/// nor this host refuses it; for a model the model must be taken too. Whether it is in working order does
/// not count then.
pub proof fn law_what_can_be_chosen(
    candidate: RuntimeCandidateView,
    rest: Seq<RuntimeCandidateView>,
    format: Seq<char>,
)
    ensures
        ({
            let id = candidate.status.runtime.manifest.runtime_id;
            let all = seq![candidate] + rest;
            let able = {
                &&& candidate.status.runtime.manifest.supported_formats.contains(format)
                &&& candidate.answers is Some
                &&& candidate.of_runtime().management is None
                &&& candidate.of_runtime().runtime is None
                &&& candidate.of_model().accepts_format
                &&& !(candidate.host is Incompatible)
            };
            &&& format_choice_refusal(all, id, format) is None <==> able
            &&& model_choice_refusal(all, id, format) is None <==> able
                && candidate.of_model().model is None && !(candidate.of_model().runtime_model
                is Incompatible)
            &&& format_choice_refusal(all, id, format) matches Some(error) ==> (error matches
                PackErrorView::Incompatible { runtime_id, .. } && runtime_id == id)
            &&& model_choice_refusal(all, id, format) matches Some(error) ==> (error matches
                PackErrorView::Incompatible { runtime_id, .. } && runtime_id == id)
        }),
        forall|id: Seq<char>|
            #![trigger format_choice_refusal(rest, id, format)]
            (forall|i: int| 0 <= i < rest.len() ==> (#[trigger] rest[i]).id() != id)
                ==> format_choice_refusal(rest, id, format) == Some(
                PackErrorView::NotInstalled(id),
            ) && model_choice_refusal(rest, id, format) == Some(PackErrorView::NotInstalled(id)),
{
    assert((seq![candidate] + rest)[0] == candidate);
    assert forall|id: Seq<char>|
        #![trigger format_choice_refusal(rest, id, format)]
        (forall|i: int| 0 <= i < rest.len() ==> (#[trigger] rest[i]).id()
            != id) implies format_choice_refusal(rest, id, format) == Some(
        PackErrorView::NotInstalled(id),
    ) && model_choice_refusal(rest, id, format) == Some(PackErrorView::NotInstalled(id)) by {
        lemma_candidate_of(rest, id);
    }
}

/// Of runtimes that come out alike in everything else, the one whose identifier comes first is first.
pub proof fn law_ties_go_by_identifier(a: RankedRuntimeView, b: RankedRuntimeView)
    requires
        a.compatibility == b.compatibility,
        a.preference == b.preference,
        a.runtime.manifest.acquisition_method == b.runtime.manifest.acquisition_method,
        resolver_recency(b.runtime, a.runtime) == Order::Equal,
    ensures
        rank_order(a, b) == text_order(
            a.runtime.manifest.runtime_id,
            b.runtime.manifest.runtime_id,
        ),
{
}

/// Each runtime of the engine and the format that was asked for is either among those that fit or turned
/// down with a reason, which comes behind those of the runtimes before it; any other is passed over.
pub proof fn law_runtimes_fit_or_are_turned_down(
    candidates: Seq<RuntimeCandidateView>,
    next: RuntimeCandidateView,
    format: Seq<char>,
    required: Option<Seq<char>>,
    serving: bool,
)
    ensures
        ({
            let all = candidates.push(next);
            let (fit, down) = (
                fitting(candidates, format, required, serving),
                rejections(candidates, format, required, serving),
            );
            let (fit_all, down_all) = (
                fitting(all, format, required, serving),
                rejections(all, format, required, serving),
            );
            let asked = (required is Some ==> next.engine() == required->0)
                && next.status.runtime.manifest.supported_formats.contains(format);
            let fits = (serving ==> !(next.status.compatibility is Incompatible))
                && next.model_refusal(format) is None;
            &&& !asked ==> fit_all == fit && down_all == down
            &&& asked && fits ==> fit_all.len() == fit.len() + 1 && fit_all.last().runtime
                == next.status.runtime && fit_all.drop_last() == fit && down_all == down
            &&& asked && !fits ==> fit_all == fit && down_all.len() == down.len() + 1
                && down_all.drop_last() == down
        }),
        fitting(Seq::empty(), format, required, serving).len() == 0,
        rejections(Seq::empty(), format, required, serving).len() == 0,
{
    let all = candidates.push(next);
    assert(all.drop_last() =~= candidates);
    assert(all.last() == next);
    assert(fitting(all, format, required, serving).drop_last() =~= fitting(
        candidates,
        format,
        required,
        serving,
    ) || fitting(all, format, required, serving) == fitting(candidates, format, required, serving));
    assert(rejections(all, format, required, serving).drop_last() =~= rejections(
        candidates,
        format,
        required,
        serving,
    ) || rejections(all, format, required, serving) == rejections(
        candidates,
        format,
        required,
        serving,
    ));
}

/// The runtimes for a model are told, the best first, where any fits; where none does, that is an error with
/// the reasons.
pub proof fn law_candidates_for_a_model(candidates: Seq<RuntimeCandidateView>, model: WantedView)
    ensures
        model_candidates(candidates, model) is Ok <==> fitting(
            candidates,
            model.format,
            None,
            false,
        ).len() > 0,
        model_candidates(candidates, model) matches Ok(list) ==> list.len() == fitting(
            candidates,
            model.format,
            None,
            false,
        ).len() && forall|i: int|
            0 <= i < list.len() ==> (#[trigger] list[i]).runtime_id == ranking(
                candidates,
                model.format,
                None,
                false,
            )[i].runtime.manifest.runtime_id && list[i].compatibility == ranking(
                candidates,
                model.format,
                None,
                false,
            )[i].compatibility,
{
    crate::sorting::law_sorted(
        fitting(candidates, model.format, None, false),
        |a: RankedRuntimeView, b: RankedRuntimeView| rank_order(a, b) == Order::Less,
    );
}

/// A model is inspected only where the store and the selections can be read, and then with no runtime asked
/// for.
pub proof fn law_inspections_need_what_they_read(
    inspection: RuntimeLocalInspection,
    model: WantedView,
    required: Option<Seq<char>>,
)
    ensures
        inspection.store_error is Some ==> inspected(inspection, model, required) is Err,
        inspection.selections is None ==> inspected(inspection, model, required) is Err,
        inspection.store_error is None && inspection.selections is Some ==> inspected(
            inspection,
            model,
            required,
        ) == resolved(
            views(inspection.installed@),
            inspection.selections->0@,
            model,
            None,
            required,
        ),
{
}

} // verus!
