//! One backend as the manager holds it, and what was recorded of its launch.
use vstd::prelude::*;
use vstd::string::*;

use crate::duplicate::{duplicate_list, duplicate_option, optional, views, Duplicate};
use crate::lifecycle::{
    BackendLifecycle, BackendLoadProgress, BackendResidency, ModelRole, ProgressView,
};
use crate::provenance::{
    all_reconciled, reconcile_effective_settings, ArgumentView, EffectiveSetting, EffectiveView,
    EnvironmentVariableProvenance, NativeArgumentProvenance, ReportedValue, ReportedView,
    VariableView,
};
use crate::supervisor::{EngineError, EngineErrorView, ProcessDescriptor, ProcessView};
use crate::table::Table;

verus! {

/// The sampling defaults that an engine reports, as JSON writes them.
#[derive(Debug)]
pub struct EffectiveGenerationSettings {
    pub temperature: String,
    pub top_p: String,
}

#[verifier::ext_equal]
pub struct GenerationView {
    pub temperature: Seq<char>,
    pub top_p: Seq<char>,
}

impl View for EffectiveGenerationSettings {
    type V = GenerationView;

    open spec fn view(&self) -> GenerationView {
        GenerationView { temperature: self.temperature@, top_p: self.top_p@ }
    }
}

impl Duplicate for EffectiveGenerationSettings {
    fn duplicate(&self) -> (result: EffectiveGenerationSettings) {
        EffectiveGenerationSettings {
            temperature: self.temperature.clone(),
            top_p: self.top_p.clone(),
        }
    }
}

/// A KV mode that was tried and the context that it served.
#[derive(Debug)]
pub struct ContextAttempt {
    pub kv_mode: String,
    pub observed_context: u64,
}

#[verifier::ext_equal]
pub struct AttemptView {
    pub kv_mode: Seq<char>,
    pub observed_context: u64,
}

impl View for ContextAttempt {
    type V = AttemptView;

    open spec fn view(&self) -> AttemptView {
        AttemptView { kv_mode: self.kv_mode@, observed_context: self.observed_context }
    }
}

impl Duplicate for ContextAttempt {
    fn duplicate(&self) -> (result: ContextAttempt) {
        ContextAttempt { kv_mode: self.kv_mode.clone(), observed_context: self.observed_context }
    }
}

/// A value that a launch or a startup observation records under a name.
#[derive(Debug)]
pub enum ObservedValue {
    Text(String),
    Count(u64),
    Attempts(Vec<ContextAttempt>),
    /// Any other value, as JSON writes it.
    Other(String),
}

#[verifier::ext_equal]
pub enum ObservedView {
    Text(Seq<char>),
    Count(u64),
    Attempts(Seq<AttemptView>),
    Other(Seq<char>),
}

impl View for ObservedValue {
    type V = ObservedView;

    open spec fn view(&self) -> ObservedView {
        match self {
            ObservedValue::Text(text) => ObservedView::Text(text@),
            ObservedValue::Count(count) => ObservedView::Count(*count),
            ObservedValue::Attempts(attempts) => ObservedView::Attempts(views(attempts@)),
            ObservedValue::Other(json) => ObservedView::Other(json@),
        }
    }
}

impl Duplicate for ObservedValue {
    fn duplicate(&self) -> (result: ObservedValue) {
        match self {
            ObservedValue::Text(text) => ObservedValue::Text(text.clone()),
            ObservedValue::Count(count) => ObservedValue::Count(*count),
            ObservedValue::Attempts(attempts) => ObservedValue::Attempts(duplicate_list(attempts)),
            ObservedValue::Other(json) => ObservedValue::Other(json.clone()),
        }
    }
}

/// What stands under `resolved_settings`: nothing, an object, or something that is no object.
pub enum ResolvedEntry {
    Absent,
    Object(Table<ReportedValue>),
    Other,
}

#[verifier::ext_equal]
pub enum ResolvedView {
    Absent,
    Object(Map<Seq<char>, ReportedView>),
    Other,
}

impl View for ResolvedEntry {
    type V = ResolvedView;

    open spec fn view(&self) -> ResolvedView {
        match self {
            ResolvedEntry::Absent => ResolvedView::Absent,
            ResolvedEntry::Object(values) => ResolvedView::Object(values@),
            ResolvedEntry::Other => ResolvedView::Other,
        }
    }
}

impl Duplicate for ResolvedEntry {
    fn duplicate(&self) -> (result: ResolvedEntry) {
        match self {
            ResolvedEntry::Absent => ResolvedEntry::Absent,
            ResolvedEntry::Object(values) => ResolvedEntry::Object(values.duplicate()),
            ResolvedEntry::Other => ResolvedEntry::Other,
        }
    }
}

/// Named values of a launch, `resolved_settings` apart from the others.
pub struct NormalizedSettings {
    pub entries: Table<ObservedValue>,
    pub resolved: ResolvedEntry,
}

#[verifier::ext_equal]
pub struct NormalizedView {
    pub entries: Map<Seq<char>, ObservedView>,
    pub resolved: ResolvedView,
}

impl View for NormalizedSettings {
    type V = NormalizedView;

    open spec fn view(&self) -> NormalizedView {
        NormalizedView { entries: self.entries@, resolved: self.resolved@ }
    }
}

impl Duplicate for NormalizedSettings {
    fn duplicate(&self) -> (result: NormalizedSettings) {
        NormalizedSettings {
            entries: self.entries.duplicate(),
            resolved: self.resolved.duplicate(),
        }
    }
}

impl NormalizedView {
    /// These values with others over them.
    pub open spec fn extended(self, other: NormalizedView) -> NormalizedView {
        NormalizedView {
            entries: self.entries.union_prefer_right(other.entries),
            resolved: if other.resolved is Absent {
                self.resolved
            } else {
                other.resolved
            },
        }
    }

    /// The sampling defaults put among the resolved settings, which there must not be anything else
    /// but an object to hold.
    pub open spec fn with_generation(self, effective: GenerationView) -> NormalizedView {
        let resolved = match self.resolved {
            ResolvedView::Object(values) => values,
            _ => Map::empty(),
        };
        NormalizedView {
            resolved: ResolvedView::Object(
                resolved.insert(
                    "temperature"@,
                    ReportedView { display: effective.temperature, valid_id: true },
                ).insert("top_p"@, ReportedView { display: effective.top_p, valid_id: true }),
            ),
            ..self
        }
    }

    /// The values after a startup that served a context under a KV mode: every attempt, the last one
    /// among them, and what was finally proven.
    pub open spec fn with_attempts(self, attempts: Seq<AttemptView>) -> NormalizedView {
        if self.entries.dom().contains("observed_kv_mode"@)
            && self.entries["observed_kv_mode"@] is Text
            && self.entries.dom().contains("observed_served_context"@)
            && self.entries["observed_served_context"@] is Count {
            let mode = self.entries["observed_kv_mode"@]->Text_0;
            let context = self.entries["observed_served_context"@]->Count_0;
            NormalizedView {
                entries: self.entries.insert(
                    "automatic_kv_attempts"@,
                    ObservedView::Attempts(
                        attempts.push(AttemptView { kv_mode: mode, observed_context: context }),
                    ),
                ).insert("final_selected_kv_mode"@, ObservedView::Text(mode)).insert(
                    "final_proven_served_context"@,
                    ObservedView::Count(context),
                ),
                ..self
            }
        } else {
            self
        }
    }
}

/// Puts the sampling defaults among the resolved settings of a startup observation.
pub fn merge_effective_generation_settings(
    observation: &mut NormalizedSettings,
    effective: &EffectiveGenerationSettings,
) -> (result: Result<(), EngineError>)
    ensures
        match result {
            Ok(()) => !(old(observation).resolved is Other) && final(observation)@ == old(
                observation,
            )@.with_generation(effective@),
            Err(error) => old(observation).resolved is Other && final(observation)@ == old(
                observation,
            )@ && error@ == EngineErrorView::Operation(
                "startup observation `resolved_settings` must be a JSON object"@,
            ),
        },
{
    let mut taken = ResolvedEntry::Absent;
    std::mem::swap(&mut taken, &mut observation.resolved);
    let mut values = match taken {
        ResolvedEntry::Absent => Table::new(),
        ResolvedEntry::Object(values) => values,
        ResolvedEntry::Other => {
            observation.resolved = ResolvedEntry::Other;
            return Err(
                EngineError::Operation(
                    "startup observation `resolved_settings` must be a JSON object".to_owned(),
                ),
            );
        },
    };
    values.insert(
        "temperature".to_owned(),
        ReportedValue { display: effective.temperature.clone(), valid_id: true },
    );
    values.insert(
        "top_p".to_owned(),
        ReportedValue { display: effective.top_p.clone(), valid_id: true },
    );
    observation.resolved = ResolvedEntry::Object(values);
    Ok(())
}

/// Records the KV modes that were tried in a startup observation.
pub fn record_context_attempts(
    observation: &mut NormalizedSettings,
    attempts: &Vec<ContextAttempt>,
)
    ensures
        final(observation)@ == old(observation)@.with_attempts(views(attempts@)),
{
    let mode = match observation.entries.get("observed_kv_mode") {
        Some(ObservedValue::Text(mode)) => Some(mode.clone()),
        _ => None,
    };
    let context = match observation.entries.get("observed_served_context") {
        Some(ObservedValue::Count(context)) => Some(*context),
        _ => None,
    };
    if let (Some(mode), Some(context)) = (mode, context) {
        let mut list = duplicate_list(attempts);
        let last = ContextAttempt { kv_mode: mode.clone(), observed_context: context };
        proof {
            crate::duplicate::lemma_views_push(list@, last);
        }
        list.push(last);
        observation.entries.insert(
            "automatic_kv_attempts".to_owned(),
            ObservedValue::Attempts(list),
        );
        observation.entries.insert("final_selected_kv_mode".to_owned(), ObservedValue::Text(mode));
        observation.entries.insert(
            "final_proven_served_context".to_owned(),
            ObservedValue::Count(context),
        );
    }
}

/// Where a runtime selection came from.
#[derive(Debug, Clone, Copy, PartialEq, Eq, Structural)]
pub enum RuntimeSelectionSource {
    Invocation,
    ModelOverride,
    FormatDefault,
    Fallback,
}

/// How a backend was launched.
pub struct RuntimeProvenance {
    /// The digest of the Model Profile that the backend was launched from.
    pub content_sha256: String,
    pub selection_source: RuntimeSelectionSource,
    pub runtime_version: String,
    pub runtime_variant: String,
    pub runtime_executable_sha256: String,
    pub effective: Table<EffectiveSetting>,
    pub normalized_settings: NormalizedSettings,
    pub native_arguments: Vec<NativeArgumentProvenance>,
    pub native_environment: Vec<EnvironmentVariableProvenance>,
    pub inherits_parent_environment: bool,
    pub process_id: u32,
    pub process_start_identity: Option<String>,
    pub private_backend_endpoint: String,
    pub launched_at_unix: i64,
}

#[verifier::ext_equal]
pub struct ProvenanceView {
    pub content_sha256: Seq<char>,
    pub selection_source: RuntimeSelectionSource,
    pub runtime_version: Seq<char>,
    pub runtime_variant: Seq<char>,
    pub runtime_executable_sha256: Seq<char>,
    pub effective: Map<Seq<char>, EffectiveView>,
    pub normalized_settings: NormalizedView,
    pub native_arguments: Seq<ArgumentView>,
    pub native_environment: Seq<VariableView>,
    pub inherits_parent_environment: bool,
    pub process_id: u32,
    pub process_start_identity: Option<Seq<char>>,
    pub private_backend_endpoint: Seq<char>,
    pub launched_at_unix: i64,
}

impl View for RuntimeProvenance {
    type V = ProvenanceView;

    open spec fn view(&self) -> ProvenanceView {
        ProvenanceView {
            content_sha256: self.content_sha256@,
            selection_source: self.selection_source,
            runtime_version: self.runtime_version@,
            runtime_variant: self.runtime_variant@,
            runtime_executable_sha256: self.runtime_executable_sha256@,
            effective: self.effective@,
            normalized_settings: self.normalized_settings@,
            native_arguments: views(self.native_arguments@),
            native_environment: views(self.native_environment@),
            inherits_parent_environment: self.inherits_parent_environment,
            process_id: self.process_id,
            process_start_identity: optional(self.process_start_identity),
            private_backend_endpoint: self.private_backend_endpoint@,
            launched_at_unix: self.launched_at_unix,
        }
    }
}

impl Duplicate for RuntimeProvenance {
    fn duplicate(&self) -> (result: RuntimeProvenance) {
        RuntimeProvenance {
            content_sha256: self.content_sha256.clone(),
            selection_source: self.selection_source,
            runtime_version: self.runtime_version.clone(),
            runtime_variant: self.runtime_variant.clone(),
            runtime_executable_sha256: self.runtime_executable_sha256.clone(),
            effective: self.effective.duplicate(),
            normalized_settings: self.normalized_settings.duplicate(),
            native_arguments: duplicate_list(&self.native_arguments),
            native_environment: duplicate_list(&self.native_environment),
            inherits_parent_environment: self.inherits_parent_environment,
            process_id: self.process_id,
            process_start_identity: duplicate_option(&self.process_start_identity),
            private_backend_endpoint: self.private_backend_endpoint.clone(),
            launched_at_unix: self.launched_at_unix,
        }
    }
}

impl ProvenanceView {
    /// The record after the startup: what was observed over what was planned, the sampling defaults,
    /// and the effective settings reconciled with what the runtime reported.
    pub open spec fn observed(self, observation: NormalizedView, generation: GenerationView) -> Self {
        let extended = self.normalized_settings.extended(observation);
        let normalized = NormalizedView {
            entries: extended.entries.insert(
                "temperature"@,
                ObservedView::Other(generation.temperature),
            ).insert("top_p"@, ObservedView::Other(generation.top_p)),
            ..extended
        };
        ProvenanceView {
            normalized_settings: normalized,
            effective: match normalized.resolved {
                ResolvedView::Object(reported) => all_reconciled(self.effective, reported),
                _ => self.effective,
            },
            ..self
        }
    }
}

impl RuntimeProvenance {
    /// Takes in what the startup showed.
    pub fn observe(&mut self, observation: &NormalizedSettings, generation: &EffectiveGenerationSettings)
        ensures
            final(self)@ == old(self)@.observed(observation@, generation@),
    {
        let ghost before = self@;
        self.normalized_settings.entries.extend_from(&observation.entries);
        match &observation.resolved {
            ResolvedEntry::Absent => {},
            _ => {
                self.normalized_settings.resolved = observation.resolved.duplicate();
            },
        }
        self.normalized_settings.entries.insert(
            "temperature".to_owned(),
            ObservedValue::Other(generation.temperature.clone()),
        );
        self.normalized_settings.entries.insert(
            "top_p".to_owned(),
            ObservedValue::Other(generation.top_p.clone()),
        );
        self.reconcile();
    }

    /// Reconciles the effective settings with what the runtime reported.
    pub fn reconcile(&mut self)
        ensures
            final(self)@ == (ProvenanceView {
                effective: match old(self)@.normalized_settings.resolved {
                    ResolvedView::Object(reported) => all_reconciled(old(self)@.effective, reported),
                    _ => old(self)@.effective,
                },
                ..old(self)@
            }),
    {
        match &self.normalized_settings.resolved {
            ResolvedEntry::Object(reported) => {
                reconcile_effective_settings(&mut self.effective, reported);
            },
            _ => {},
        }
    }
}

/// The process side of a backend that serves requests.
#[derive(Debug)]
pub struct RunningBackend {
    pub process: ProcessDescriptor,
    pub endpoint: String,
    pub generation_settings: EffectiveGenerationSettings,
    /// Whether the backend holds the lease that keeps its runtime from being removed.
    pub lease_held: bool,
}

#[verifier::ext_equal]
pub struct RunningView {
    pub process: ProcessView,
    pub endpoint: Seq<char>,
    pub generation_settings: GenerationView,
    pub lease_held: bool,
}

impl View for RunningBackend {
    type V = RunningView;

    open spec fn view(&self) -> RunningView {
        RunningView {
            process: self.process@,
            endpoint: self.endpoint@,
            generation_settings: self.generation_settings@,
            lease_held: self.lease_held,
        }
    }
}

/// A backend from its admission until it is gone.
pub struct ManagedBackend {
    pub lifecycle: BackendLifecycle,
    pub model_profile_id: String,
    pub model_id: String,
    pub profile_role: ModelRole,
    pub residency: BackendResidency,
    pub engine_id: Option<String>,
    pub runtime_id: Option<String>,
    pub running: Option<RunningBackend>,
    pub loading_process: Option<ProcessDescriptor>,
    /// Whether the load holds the lease that keeps its runtime from being removed.
    pub loading_lease_held: bool,
    pub cancel_loading: bool,
    pub load_progress: Option<BackendLoadProgress>,
    pub failure: Option<String>,
    pub provenance: Option<RuntimeProvenance>,
    pub generation: u64,
    pub active_requests: usize,
    pub last_used_unix: i64,
    pub retiring: bool,
}

#[verifier::ext_equal]
pub struct BackendView {
    pub lifecycle: BackendLifecycle,
    pub model_profile_id: Seq<char>,
    pub model_id: Seq<char>,
    pub profile_role: ModelRole,
    pub residency: BackendResidency,
    pub engine_id: Option<Seq<char>>,
    pub runtime_id: Option<Seq<char>>,
    pub running: Option<RunningView>,
    pub loading_process: Option<ProcessView>,
    pub loading_lease_held: bool,
    pub cancel_loading: bool,
    pub load_progress: Option<ProgressView>,
    pub failure: Option<Seq<char>>,
    pub provenance: Option<ProvenanceView>,
    pub generation: u64,
    pub active_requests: usize,
    pub last_used_unix: i64,
    pub retiring: bool,
}

impl View for ManagedBackend {
    type V = BackendView;

    open spec fn view(&self) -> BackendView {
        BackendView {
            lifecycle: self.lifecycle,
            model_profile_id: self.model_profile_id@,
            model_id: self.model_id@,
            profile_role: self.profile_role,
            residency: self.residency,
            engine_id: optional(self.engine_id),
            runtime_id: optional(self.runtime_id),
            running: optional(self.running),
            loading_process: optional(self.loading_process),
            loading_lease_held: self.loading_lease_held,
            cancel_loading: self.cancel_loading,
            load_progress: optional(self.load_progress),
            failure: optional(self.failure),
            provenance: optional(self.provenance),
            generation: self.generation,
            active_requests: self.active_requests,
            last_used_unix: self.last_used_unix,
            retiring: self.retiring,
        }
    }
}

impl BackendView {
    /// The backend after a load of some generation reported progress: only the load that it is in
    /// the middle of counts, and only what is trustworthy of the report.
    pub open spec fn progressed(self, generation: u64, progress: ProgressView) -> BackendView {
        if self.generation == generation && self.lifecycle == BackendLifecycle::Loading {
            BackendView { load_progress: Some(progress.sanitized()), ..self }
        } else {
            self
        }
    }

    /// Whether the backend was launched from the Model Profile with this digest.
    pub open spec fn launched_from(self, profile_hash: Seq<char>) -> bool {
        self.provenance is Some && self.provenance->0.content_sha256 == profile_hash
    }
}

impl ManagedBackend {
    pub fn apply_load_progress(&mut self, generation: u64, progress: BackendLoadProgress)
        ensures
            final(self)@ == old(self)@.progressed(generation, progress@),
    {
        if self.generation == generation && self.lifecycle == BackendLifecycle::Loading {
            self.load_progress = Some(progress.sanitized());
        }
    }

    pub fn was_launched_from(&self, profile_hash: &str) -> (result: bool)
        ensures
            result == self@.launched_from(profile_hash@),
    {
        match &self.provenance {
            Some(provenance) => crate::text::same(provenance.content_sha256.as_str(), profile_hash),
            None => false,
        }
    }
}

/// A load of an old generation cannot overwrite the progress of a newer one, and progress is not
/// attached to a backend that is not loading.
pub proof fn law_stale_progress_is_ignored(
    backend: BackendView,
    generation: u64,
    progress: ProgressView,
)
    requires
        backend.generation != generation || backend.lifecycle != BackendLifecycle::Loading,
    ensures
        backend.progressed(generation, progress) == backend,
{
}

/// What was observed counts before what was planned, and what was not observed stays.
pub proof fn law_observations_count_before_plans(
    planned: NormalizedView,
    observed: NormalizedView,
    key: Seq<char>,
)
    ensures
        ({
            let all = planned.extended(observed);
            &&& observed.entries.contains_key(key) ==> all.entries.contains_key(key)
                && all.entries[key] == observed.entries[key]
            &&& !observed.entries.contains_key(key) && planned.entries.contains_key(key)
                ==> all.entries.contains_key(key) && all.entries[key] == planned.entries[key]
            &&& all.entries.contains_key(key) ==> observed.entries.contains_key(key)
                || planned.entries.contains_key(key)
            &&& observed.resolved is Absent ==> all.resolved == planned.resolved
            &&& !(observed.resolved is Absent) ==> all.resolved == observed.resolved
        }),
{
}

/// The sampling that a launch is made with is recorded under its names, next to what the runtime resolved,
/// and the settings after the startup are those that the runtime resolved.
pub proof fn law_sampling_is_recorded(
    settings: NormalizedView,
    record: ProvenanceView,
    generation: GenerationView,
    key: Seq<char>,
)
    requires
        key != "temperature"@,
        key != "top_p"@,
    ensures
        ({
            let set = settings.with_generation(generation);
            &&& set.entries == settings.entries
            &&& set.resolved matches ResolvedView::Object(values) && {
                &&& values.contains_key("temperature"@) && values["temperature"@].display
                    == generation.temperature && values["temperature"@].valid_id
                &&& values.contains_key("top_p"@) && values["top_p"@].display == generation.top_p
                    && values["top_p"@].valid_id
                &&& settings.resolved is Object ==> (values.contains_key(key)
                    <==> settings.resolved->Object_0.contains_key(key)) && values[key]
                    == settings.resolved->Object_0[key]
                &&& !(settings.resolved is Object) ==> !values.contains_key(key)
            }
        }),
        ({
            let after = record.observed(settings, generation).normalized_settings;
            &&& after.entries.contains_key("temperature"@) && after.entries["temperature"@]
                == ObservedView::Other(generation.temperature)
            &&& after.entries.contains_key("top_p"@) && after.entries["top_p"@]
                == ObservedView::Other(generation.top_p)
            &&& settings.entries.contains_key(key) ==> after.entries.contains_key(key)
                && after.entries[key] == settings.entries[key]
        }),
{
    reveal_strlit("temperature");
    reveal_strlit("top_p");
    assert("temperature"@.len() != "top_p"@.len());
}

/// A startup that served a context under a mode is recorded as the last attempt and as what was proven; any
/// other startup leaves the record as it is.
pub proof fn law_last_attempt_is_what_was_proven(
    settings: NormalizedView,
    attempts: Seq<AttemptView>,
    mode: Seq<char>,
    context: u64,
)
    ensures
        ({
            let after = settings.with_attempts(attempts);
            let served = settings.entries.contains_key("observed_kv_mode"@)
                && settings.entries["observed_kv_mode"@] == ObservedView::Text(mode)
                && settings.entries.contains_key("observed_served_context"@)
                && settings.entries["observed_served_context"@] == ObservedView::Count(context);
            &&& served ==> {
                &&& after.entries.contains_key("automatic_kv_attempts"@)
                    && after.entries["automatic_kv_attempts"@] == ObservedView::Attempts(
                    attempts.push(AttemptView { kv_mode: mode, observed_context: context }),
                )
                &&& after.entries.contains_key("final_selected_kv_mode"@)
                    && after.entries["final_selected_kv_mode"@] == ObservedView::Text(mode)
                &&& after.entries.contains_key("final_proven_served_context"@)
                    && after.entries["final_proven_served_context"@] == ObservedView::Count(context)
            }
            &&& after.resolved == settings.resolved
            &&& !settings.entries.contains_key("observed_kv_mode"@)
                || !settings.entries.contains_key("observed_served_context"@) ==> after == settings
        }),
{
    reveal_strlit("automatic_kv_attempts");
    reveal_strlit("final_selected_kv_mode");
    reveal_strlit("final_proven_served_context");
    assert("automatic_kv_attempts"@.len() == 21);
    assert("final_selected_kv_mode"@.len() == 22);
    assert("final_proven_served_context"@.len() == 27);
}

/// Progress is shown of the load that the backend is in, and nothing else changes by it.
pub proof fn law_progress_is_of_the_load(
    backend: BackendView,
    generation: u64,
    progress: ProgressView,
)
    ensures
        backend.generation == generation && backend.lifecycle == BackendLifecycle::Loading
            ==> backend.progressed(generation, progress).load_progress == Some(
            progress.sanitized(),
        ),
        (BackendView {
            load_progress: backend.load_progress,
            ..backend.progressed(generation, progress)
        }) == backend,
{
}

} // verus!
