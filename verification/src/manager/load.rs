//! The load of a model, step by step. Each step takes in what was done outside, changes the manager
//! accordingly and says what comes next; a step can only be taken on what the step before it gave.
use vstd::prelude::*;
use vstd::string::*;

use super::{
    cancelled_text, ControlStatus, ManagerView, ModelProfile, ProfileView, RuntimeManager,
};
use crate::backend::{
    merge_effective_generation_settings, record_context_attempts, AttemptView, BackendView,
    ContextAttempt, EffectiveGenerationSettings, NormalizedSettings, NormalizedView, ProvenanceView,
    RunningBackend, RunningView, RuntimeProvenance, RuntimeSelectionSource,
};
use crate::duplicate::{
    duplicate_list, duplicate_option, lemma_views_push, optional, views, Duplicate,
};
use crate::lifecycle::{
    BackendLifecycle, BackendLoadPhase, BackendLoadProgress, BackendResidency, ErrorView, ModelRole,
    ProgressView, RuntimeError, RuntimeNoticeLevel,
};
use crate::provenance::{
    environment_provenance, native_argument_provenance, own_variables, pair_views,
    recorded_arguments, recorded_environment, with_inherited, EffectiveSetting, EffectiveView,
};
use crate::supervisor::{
    exit_detail, exit_text, EngineError, ProcessDescriptor, ProcessExit, ProcessView,
};
use crate::table::Table;
use crate::text::{cat2, cat3, cat4, cat5, cat7, decimal, decimal_text, join, joined};

verus! {

/// How often a startup that cannot be observed yet is looked at again.
pub const OBSERVATION_POLLS: u8 = 20;

/// A setting that a load was asked for with, and whether the engine of the load has it.
#[derive(Debug)]
pub struct InvocationSetting {
    pub id: String,
    pub applies: bool,
}

#[verifier::ext_equal]
pub struct InvocationView {
    pub id: Seq<char>,
    pub applies: bool,
}

impl View for InvocationSetting {
    type V = InvocationView;

    open spec fn view(&self) -> InvocationView {
        InvocationView { id: self.id@, applies: self.applies }
    }
}

/// A load whose generation was reserved.
pub struct AdmittedLoad {
    pub model_profile: ModelProfile,
    pub model_id: String,
    pub settings: Vec<InvocationSetting>,
    pub cancellation_epoch: u64,
    pub generation: u64,
    pub profile_role: ModelRole,
    pub residency: BackendResidency,
}

#[verifier::ext_equal]
pub struct LoadView {
    pub model_profile: ProfileView,
    pub model_id: Seq<char>,
    pub settings: Seq<InvocationView>,
    pub cancellation_epoch: u64,
    pub generation: u64,
    pub profile_role: ModelRole,
    pub residency: BackendResidency,
}

impl View for AdmittedLoad {
    type V = LoadView;

    open spec fn view(&self) -> LoadView {
        LoadView {
            model_profile: self.model_profile@,
            model_id: self.model_id@,
            settings: views(self.settings@),
            cancellation_epoch: self.cancellation_epoch,
            generation: self.generation,
            profile_role: self.profile_role,
            residency: self.residency,
        }
    }
}

impl LoadView {
    /// The first setting that the engine does not have.
    pub open spec fn misplaced(self, from: int) -> Option<Seq<char>>
        decreases self.settings.len() - from,
    {
        if from < 0 || from >= self.settings.len() {
            None
        } else if !self.settings[from].applies {
            Some(self.settings[from].id)
        } else {
            self.misplaced(from + 1)
        }
    }
}

impl ManagerView {
    /// A phase of a load with nothing measured.
    pub open spec fn entered(self, load: LoadView, phase: BackendLoadPhase) -> Self {
        self.progressed(load.generation, ProgressView::indeterminate(phase))
    }

    /// Whether a load is still the one that its Model Profile is in: it was neither replaced nor
    /// called off.
    pub open spec fn continues(self, load: LoadView) -> bool {
        let id = load.model_profile.id;
        &&& self.backends.dom().contains(id)
        &&& self.backends[id].generation == load.generation
        &&& self.backends[id].lifecycle == BackendLifecycle::Loading
        &&& !self.backends[id].cancel_loading
        &&& !self.cancelled(load.cancellation_epoch)
    }

    /// Some warnings noticed one after the other.
    pub open spec fn warned(self, warnings: Seq<Seq<char>>, now: i64) -> Self
        decreases warnings.len(),
    {
        if warnings.len() == 0 {
            self
        } else {
            self.noticed(now, RuntimeNoticeLevel::Warning, warnings[0]).warned(warnings.skip(1), now)
        }
    }
}

/// Whether a step failed: the load is recorded as failed with a detail, and an error is returned.
pub open spec fn step_failed(
    before: ManagerView,
    after: ManagerView,
    load: LoadView,
    detail: Seq<char>,
    now: i64,
) -> bool {
    after == before.failed(load.generation, detail, None, now)
}

/// How far the settings of a load got.
pub enum SettingsOutcome {
    /// The persisted settings could not be read.
    Unreadable(String),
    /// The engine that the Model Profile binds is not registered.
    EngineMissing,
    /// The engine does not support the model.
    Unsupported(String),
    /// The settings contradict each other.
    Unresolved(String),
    Resolved,
}

impl AdmittedLoad {
    fn first_misplaced(&self) -> (result: Option<String>)
        ensures
            optional(result) == self@.misplaced(0),
    {
        let mut i: usize = 0;
        while i < self.settings.len()
            invariant
                i <= self.settings.len(),
                self@.misplaced(0) == self@.misplaced(i as int),
            decreases self.settings.len() - i,
        {
            proof {
                assert(self@.settings[i as int] == self.settings@[i as int]@);
            }
            if !self.settings[i].applies {
                return Some(self.settings[i].id.clone());
            }
            i += 1;
        }
        None
    }

    /// Begins the load.
    pub fn begin(self, manager: &mut RuntimeManager, now: i64) -> (result: Result<
        ResolvingSettings,
        RuntimeError,
    >)
        requires
            old(manager)@.wf(),
        ensures
            final(manager)@.wf(),
            old(manager)@.begins_nothing(final(manager)@),
            if old(manager)@.cancelled(self@.cancellation_epoch) {
                step_failed(old(manager)@, final(manager)@, self@, cancelled_text(), now) && (
                result matches Err(error) && error@ == ErrorView::Operation(cancelled_text()))
            } else {
                final(manager)@ == old(manager)@.entered(self@, BackendLoadPhase::ResolvingSettings)
                    && (result matches Ok(next) && next.load@ == self@)
            },
    {
        if manager.load_cancelled(self.cancellation_epoch) {
            manager.fail_loading(self.generation, "model load was cancelled", &None, now);
            return Err(RuntimeError::Operation("model load was cancelled".to_owned()));
        }
        manager.set_load_progress(
            self.generation,
            BackendLoadProgress::indeterminate(BackendLoadPhase::ResolvingSettings),
        );
        Ok(ResolvingSettings { load: self })
    }
}

/// The settings of the load are being resolved.
pub struct ResolvingSettings {
    pub load: AdmittedLoad,
}

impl ResolvingSettings {
    /// What the load is told of its settings: nothing but success if they are resolved and all of
    /// them are the engine's.
    pub open spec fn verdict(load: LoadView, outcome: SettingsOutcome) -> Result<
        (),
        (Seq<char>, ErrorView),
    > {
        let engine = load.model_profile.engine_id;
        let misplaced = ErrorView::Operation(
            "invocation setting `"@ + load.misplaced(0)->0
                + "` does not apply to selected engine `"@ + engine + "`"@,
        );
        let missing = ErrorView::EngineUnavailable(
            "Model Profile `"@ + load.model_profile.id + "` binds unregistered engine `"@ + engine
                + "`"@,
        );
        match outcome {
            SettingsOutcome::Unreadable(error) => Err((error@, ErrorView::Operation(error@))),
            SettingsOutcome::EngineMissing => Err((missing.text(), missing)),
            SettingsOutcome::Unsupported(reason) => Err(
                (reason@, ErrorView::Incompatible { model_id: load.model_id, reason: reason@ }),
            ),
            SettingsOutcome::Unresolved(error) => if load.misplaced(0) is Some {
                Err((misplaced.text(), misplaced))
            } else {
                Err((error@, ErrorView::Operation(error@)))
            },
            SettingsOutcome::Resolved => if load.misplaced(0) is Some {
                Err((misplaced.text(), misplaced))
            } else {
                Ok(())
            },
        }
    }

    fn judge(&self, outcome: SettingsOutcome) -> (result: Result<(), (String, RuntimeError)>)
        ensures
            match result {
                Ok(()) => Self::verdict(self.load@, outcome) is Ok,
                Err((detail, error)) => Self::verdict(self.load@, outcome) == Err::<
                    (),
                    (Seq<char>, ErrorView),
                >((detail@, error@)),
            },
    {
        let profile = &self.load.model_profile;
        match outcome {
            SettingsOutcome::Unreadable(error) => {
                return Err((error.clone(), RuntimeError::Operation(error)));
            },
            SettingsOutcome::EngineMissing => {
                let error = RuntimeError::EngineUnavailable(
                    cat5(
                        "Model Profile `",
                        profile.id.as_str(),
                        "` binds unregistered engine `",
                        profile.engine_id.as_str(),
                        "`",
                    ),
                );
                return Err((error.message(), error));
            },
            SettingsOutcome::Unsupported(reason) => {
                return Err(
                    (
                        reason.clone(),
                        RuntimeError::Incompatible { model_id: self.load.model_id.clone(), reason },
                    ),
                );
            },
            _ => {},
        }
        if let Some(id) = self.load.first_misplaced() {
            let error = RuntimeError::Operation(
                cat5(
                    "invocation setting `",
                    id.as_str(),
                    "` does not apply to selected engine `",
                    profile.engine_id.as_str(),
                    "`",
                ),
            );
            return Err((error.message(), error));
        }
        match outcome {
            SettingsOutcome::Unresolved(error) => Err(
                (error.clone(), RuntimeError::Operation(error)),
            ),
            _ => Ok(()),
        }
    }

    pub fn resolved(self, manager: &mut RuntimeManager, outcome: SettingsOutcome, now: i64) -> (result:
        Result<SelectingRuntime, RuntimeError>)
        requires
            old(manager)@.wf(),
        ensures
            final(manager)@.wf(),
            old(manager)@.begins_nothing(final(manager)@),
            match Self::verdict(self.load@, outcome) {
                Err((detail, reported)) => step_failed(
                    old(manager)@,
                    final(manager)@,
                    self.load@,
                    detail,
                    now,
                ) && (result matches Err(error) && error@ == reported),
                Ok(()) => final(manager)@ == old(manager)@.entered(
                    self.load@,
                    BackendLoadPhase::SelectingRuntime,
                ) && (result matches Ok(next) && next.load@ == self.load@),
            },
    {
        match self.judge(outcome) {
            Err((detail, error)) => {
                manager.fail_loading(self.load.generation, detail.as_str(), &None, now);
                Err(error)
            },
            Ok(()) => {
                manager.set_load_progress(
                    self.load.generation,
                    BackendLoadProgress::indeterminate(BackendLoadPhase::SelectingRuntime),
                );
                Ok(SelectingRuntime { load: self.load })
            },
        }
    }
}

/// The runtime that was selected for a load.
#[derive(Debug)]
pub struct SelectedRuntime {
    pub runtime_id: String,
    pub source: RuntimeSelectionSource,
    pub notices: Vec<String>,
}

#[verifier::ext_equal]
pub struct SelectedView {
    pub runtime_id: Seq<char>,
    pub source: RuntimeSelectionSource,
    pub notices: Seq<Seq<char>>,
}

impl View for SelectedRuntime {
    type V = SelectedView;

    open spec fn view(&self) -> SelectedView {
        SelectedView {
            runtime_id: self.runtime_id@,
            source: self.source,
            notices: views(self.notices@),
        }
    }
}

/// A runtime is being selected.
pub struct SelectingRuntime {
    pub load: AdmittedLoad,
}

impl SelectingRuntime {
    pub fn selected(
        self,
        manager: &mut RuntimeManager,
        selection: Result<SelectedRuntime, RuntimeError>,
        now: i64,
    ) -> (result: Result<CheckingSettings, RuntimeError>)
        requires
            old(manager)@.wf(),
        ensures
            final(manager)@.wf(),
            old(manager)@.begins_nothing(final(manager)@),
            match selection {
                Err(reported) => step_failed(
                    old(manager)@,
                    final(manager)@,
                    self.load@,
                    reported@.text(),
                    now,
                ) && (result matches Err(error) && error@ == reported@),
                Ok(selected) => final(manager)@ == old(manager)@ && (result matches Ok(next)
                    && next.load@ == self.load@ && next.selection@ == selected@),
            },
    {
        match selection {
            Err(error) => {
                let detail = error.message();
                manager.fail_loading(self.load.generation, detail.as_str(), &None, now);
                Err(error)
            },
            Ok(selection) => Ok(CheckingSettings { load: self.load, selection }),
        }
    }
}

/// The settings are being held against what the selected runtime takes.
pub struct CheckingSettings {
    pub load: AdmittedLoad,
    pub selection: SelectedRuntime,
}

impl CheckingSettings {
    /// `outcome` is the first thing that the runtime objects to, if it objects to anything.
    pub fn checked(self, manager: &mut RuntimeManager, outcome: Result<(), String>, now: i64) -> (result:
        Result<AcquiringRuntime, RuntimeError>)
        requires
            old(manager)@.wf(),
        ensures
            final(manager)@.wf(),
            old(manager)@.begins_nothing(final(manager)@),
            match outcome {
                Err(detail) => step_failed(
                    old(manager)@,
                    final(manager)@,
                    self.load@,
                    detail@,
                    now,
                ) && (result matches Err(error) && error@ == ErrorView::StartupFailed(detail@)),
                Ok(()) => final(manager)@ == old(manager)@.entered(
                    self.load@,
                    BackendLoadPhase::AcquiringRuntime,
                ) && (result matches Ok(next) && next.load@ == self.load@ && next.selection@
                    == self.selection@),
            },
    {
        match outcome {
            Err(detail) => {
                manager.fail_loading(self.load.generation, detail.as_str(), &None, now);
                Err(RuntimeError::StartupFailed(detail))
            },
            Ok(()) => {
                manager.set_load_progress(
                    self.load.generation,
                    BackendLoadProgress::indeterminate(BackendLoadPhase::AcquiringRuntime),
                );
                Ok(AcquiringRuntime { load: self.load, selection: self.selection })
            },
        }
    }
}

/// The lease that keeps the runtime from being removed is being acquired.
pub struct AcquiringRuntime {
    pub load: AdmittedLoad,
    pub selection: SelectedRuntime,
}

impl AcquiringRuntime {
    /// The manager with the runtime bound to the load.
    pub open spec fn bound(before: ManagerView, load: LoadView, selection: SelectedView, now: i64) -> ManagerView {
        before.with_backend(
            load.model_profile.id,
            BackendView {
                engine_id: Some(load.model_profile.engine_id),
                runtime_id: Some(selection.runtime_id),
                loading_lease_held: true,
                ..before.backends[load.model_profile.id]
            },
        ).warned(selection.notices, now)
    }

    pub fn acquired(self, manager: &mut RuntimeManager, lease: Result<(), String>, now: i64) -> (result:
        Result<ReservingAddress, RuntimeError>)
        requires
            old(manager)@.wf(),
        ensures
            final(manager)@.wf(),
            old(manager)@.begins_nothing(final(manager)@),
            match lease {
                Err(detail) => step_failed(
                    old(manager)@,
                    final(manager)@,
                    self.load@,
                    detail@,
                    now,
                ) && (result matches Err(error) && error@ == ErrorView::Operation(detail@)),
                Ok(()) => if old(manager)@.continues(self.load@) {
                    final(manager)@ == Self::bound(
                        old(manager)@,
                        self.load@,
                        self.selection@,
                        now,
                    ) && (result matches Ok(next) && next.load@ == self.load@ && next.selection@
                        == self.selection@)
                } else {
                    step_failed(
                        old(manager)@,
                        final(manager)@,
                        self.load@,
                        cancelled_text(),
                        now,
                    ) && (result matches Err(error) && error@ == ErrorView::Operation(
                        cancelled_text(),
                    ))
                },
            },
    {
        if let Err(detail) = lease {
            manager.fail_loading(self.load.generation, detail.as_str(), &None, now);
            return Err(RuntimeError::Operation(detail));
        }
        if !manager.load_continues(&self.load) {
            manager.fail_loading(self.load.generation, "model load was cancelled", &None, now);
            return Err(RuntimeError::Operation("model load was cancelled".to_owned()));
        }
        let profile = &self.load.model_profile;
        manager.bind_runtime(
            profile.id.as_str(),
            profile.engine_id.as_str(),
            self.selection.runtime_id.as_str(),
        );
        manager.push_warnings(&self.selection.notices, now);
        Ok(ReservingAddress { load: self.load, selection: self.selection })
    }
}

impl RuntimeManager {
    fn load_continues(&self, load: &AdmittedLoad) -> (result: bool)
        ensures
            result == self@.continues(load@),
    {
        if self.load_cancelled(load.cancellation_epoch) {
            return false;
        }
        match self.backends.get(load.model_profile.id.as_str()) {
            Some(backend) => backend.generation == load.generation && backend.lifecycle
                == BackendLifecycle::Loading && !backend.cancel_loading,
            None => false,
        }
    }

    fn bind_runtime(&mut self, profile_id: &str, engine_id: &str, runtime_id: &str)
        requires
            old(self)@.wf(),
            old(self)@.backends.dom().contains(profile_id@),
        ensures
            final(self)@.wf(),
            old(self)@.begins_nothing(final(self)@),
            final(self)@ == old(self)@.with_backend(
                profile_id@,
                BackendView {
                    engine_id: Some(engine_id@),
                    runtime_id: Some(runtime_id@),
                    loading_lease_held: true,
                    ..old(self)@.backends[profile_id@]
                },
            ),
    {
        let ghost before = self@;
        match self.backends.remove(profile_id) {
            Some(mut backend) => {
                backend.engine_id = Some(engine_id.to_owned());
                backend.runtime_id = Some(runtime_id.to_owned());
                backend.loading_lease_held = true;
                self.backends.insert(profile_id.to_owned(), backend);
                proof {
                    assert(self@.backends =~= before.backends.insert(
                        profile_id@,
                        self@.backends[profile_id@],
                    ));
                }
            },
            None => {},
        }
    }

    fn push_warnings(&mut self, warnings: &Vec<String>, now: i64)
        requires
            old(self)@.wf(),
        ensures
            final(self)@.wf(),
            old(self)@.begins_nothing(final(self)@),
            final(self)@ == old(self)@.warned(views(warnings@), now),
    {
        let mut i: usize = 0;
        let ghost texts = views(warnings@);
        let ghost before = self@;
        proof {
            assert(texts.skip(0) =~= texts);
        }
        while i < warnings.len()
            invariant
                i <= warnings.len(),
                texts == views(warnings@),
                self@.wf(),
                before.begins_nothing(self@),
                before.warned(texts, now) == self@.warned(texts.skip(i as int), now),
            decreases warnings.len() - i,
        {
            proof {
                assert(texts.skip(i as int)[0] == warnings@[i as int]@);
                assert(texts.skip(i as int).skip(1) =~= texts.skip(i + 1));
            }
            let ghost last = self@;
            self.push_notice(now, RuntimeNoticeLevel::Warning, warnings[i].clone());
            proof {
                assert forall|id: Seq<char>| #[trigger] self@.under_way(id) implies before.under_way(
                    id,
                ) by {
                    assert(last.under_way(id));
                }
            }
            i += 1;
        }
        proof {
            assert(texts.skip(i as int) =~= Seq::empty());
        }
    }
}

/// A private address for the backend is being reserved.
pub struct ReservingAddress {
    pub load: AdmittedLoad,
    pub selection: SelectedRuntime,
}

impl ReservingAddress {
    pub fn reserved(self, manager: &mut RuntimeManager, address: Result<(), String>, now: i64) -> (result:
        Result<PreparingModel, RuntimeError>)
        requires
            old(manager)@.wf(),
        ensures
            final(manager)@.wf(),
            old(manager)@.begins_nothing(final(manager)@),
            match address {
                Err(error) => {
                    let detail = "could not allocate a private backend port: "@ + error@;
                    step_failed(old(manager)@, final(manager)@, self.load@, detail, now) && (
                    result matches Err(error) && error@ == ErrorView::Operation(detail))
                },
                Ok(()) => final(manager)@ == old(manager)@.entered(
                    self.load@,
                    BackendLoadPhase::PreparingModel,
                ) && (result matches Ok(next) && next.load@ == self.load@ && next.selection@
                    == self.selection@),
            },
    {
        match address {
            Err(error) => {
                let detail = cat2(
                    "could not allocate a private backend port: ",
                    error.as_str(),
                );
                manager.fail_loading(self.load.generation, detail.as_str(), &None, now);
                Err(RuntimeError::Operation(detail))
            },
            Ok(()) => {
                manager.set_load_progress(
                    self.load.generation,
                    BackendLoadProgress::indeterminate(BackendLoadPhase::PreparingModel),
                );
                Ok(PreparingModel { load: self.load, selection: self.selection })
            },
        }
    }
}

/// The model is being prepared as input of the engine.
pub struct PreparingModel {
    pub load: AdmittedLoad,
    pub selection: SelectedRuntime,
}

impl PreparingModel {
    pub fn prepared(self, manager: &mut RuntimeManager, model: Result<(), String>, now: i64) -> (result:
        Result<BuildingLaunch, RuntimeError>)
        requires
            old(manager)@.wf(),
        ensures
            final(manager)@.wf(),
            old(manager)@.begins_nothing(final(manager)@),
            match model {
                Err(detail) => step_failed(
                    old(manager)@,
                    final(manager)@,
                    self.load@,
                    detail@,
                    now,
                ) && (result matches Err(error) && error@ == ErrorView::StartupFailed(detail@)),
                Ok(()) => final(manager)@ == old(manager)@.entered(
                    self.load@,
                    BackendLoadPhase::PreparingLaunch,
                ) && (result matches Ok(next) && next.load@ == self.load@ && next.selection@
                    == self.selection@),
            },
    {
        match model {
            Err(detail) => {
                manager.fail_loading(self.load.generation, detail.as_str(), &None, now);
                Err(RuntimeError::StartupFailed(detail))
            },
            Ok(()) => {
                manager.set_load_progress(
                    self.load.generation,
                    BackendLoadProgress::indeterminate(BackendLoadPhase::PreparingLaunch),
                );
                Ok(BuildingLaunch { load: self.load, selection: self.selection })
            },
        }
    }
}

/// One way to launch the backend.
pub struct LaunchAttempt {
    /// Files that the launch leaves behind.
    pub temporary_files: Vec<String>,
    pub endpoint: Option<String>,
    /// What is shown while the launch is prepared, if the engine says so.
    pub preparation: Option<BackendLoadProgress>,
    pub runtime_version: String,
    pub runtime_variant: String,
    pub runtime_executable_sha256: String,
    pub effective: Table<EffectiveSetting>,
    pub normalized_settings: NormalizedSettings,
    pub native_arguments: Vec<String>,
    pub environment: Table<String>,
    pub environment_remove: Vec<String>,
    pub inherits_parent_environment: bool,
}

#[verifier::ext_equal]
pub struct LaunchView {
    pub temporary_files: Seq<Seq<char>>,
    pub endpoint: Option<Seq<char>>,
    pub preparation: Option<ProgressView>,
    pub runtime_version: Seq<char>,
    pub runtime_variant: Seq<char>,
    pub runtime_executable_sha256: Seq<char>,
    pub effective: Map<Seq<char>, EffectiveView>,
    pub normalized_settings: NormalizedView,
    pub native_arguments: Seq<Seq<char>>,
    pub environment: Map<Seq<char>, Seq<char>>,
    pub environment_remove: Seq<Seq<char>>,
    pub inherits_parent_environment: bool,
}

impl View for LaunchAttempt {
    type V = LaunchView;

    open spec fn view(&self) -> LaunchView {
        LaunchView {
            temporary_files: views(self.temporary_files@),
            endpoint: optional(self.endpoint),
            preparation: optional(self.preparation),
            runtime_version: self.runtime_version@,
            runtime_variant: self.runtime_variant@,
            runtime_executable_sha256: self.runtime_executable_sha256@,
            effective: self.effective@,
            normalized_settings: self.normalized_settings@,
            native_arguments: views(self.native_arguments@),
            environment: self.environment@,
            environment_remove: views(self.environment_remove@),
            inherits_parent_environment: self.inherits_parent_environment,
        }
    }
}

/// The files of some launches, one launch after the other.
pub open spec fn files_of(launches: Seq<LaunchView>) -> Seq<Seq<char>>
    decreases launches.len(),
{
    if launches.len() == 0 {
        Seq::empty()
    } else {
        files_of(launches.drop_last()) + launches.last().temporary_files
    }
}

fn append_files(files: &mut Vec<String>, more: &Vec<String>)
    ensures
        views(final(files)@) == views(old(files)@) + views(more@),
{
    let mut i: usize = 0;
    let ghost start = views(files@);
    let ghost all = views(more@);
    proof {
        assert(start + all.take(0) =~= start);
    }
    while i < more.len()
        invariant
            i <= more.len(),
            all == views(more@),
            views(files@) == start + all.take(i as int),
        decreases more.len() - i,
    {
        let file = more[i].clone();
        proof {
            lemma_views_push(files@, file);
            assert(start + all.take(i + 1) =~= (start + all.take(i as int)).push(all[i as int]));
        }
        files.push(file);
        i += 1;
    }
    proof {
        assert(all.take(i as int) =~= all);
    }
}

fn collect_files(first: &Vec<String>, launches: &Vec<LaunchAttempt>) -> (result: Vec<String>)
    ensures
        views(result@) == views(first@) + files_of(views(launches@)),
{
    let mut result = duplicate_list(first);
    let mut i: usize = 0;
    let ghost all = views(launches@);
    proof {
        assert(views(first@) + files_of(all.take(0)) =~= views(first@));
    }
    while i < launches.len()
        invariant
            i <= launches.len(),
            all == views(launches@),
            views(result@) == views(first@) + files_of(all.take(i as int)),
        decreases launches.len() - i,
    {
        proof {
            assert(all.take(i + 1).drop_last() =~= all.take(i as int));
            assert(all.take(i + 1).last() == launches@[i as int]@);
            assert(views(first@) + files_of(all.take(i as int)) + views(
                launches@[i as int].temporary_files@,
            ) =~= views(first@) + files_of(all.take(i + 1)));
        }
        append_files(&mut result, &launches[i].temporary_files);
        i += 1;
    }
    proof {
        assert(all.take(i as int) =~= all);
    }
    result
}

/// A load that failed after files or a process came into being, and what is to be done about them
/// before the failure is recorded: remove the files, end the process, have the engine forget the
/// launch, in this order.
pub struct Teardown {
    pub generation: u64,
    /// The files to remove.
    pub files: Vec<String>,
    /// The process to end.
    pub process: Option<ProcessDescriptor>,
    /// The launch to forget, by its endpoint.
    pub forget: Option<Option<String>>,
    /// A process that is known not to have ended.
    pub retained: Option<ProcessDescriptor>,
    pub detail: String,
    pub error: RuntimeError,
}

#[verifier::ext_equal]
pub struct TeardownView {
    pub generation: u64,
    pub files: Seq<Seq<char>>,
    pub process: Option<ProcessView>,
    pub forget: Option<Option<Seq<char>>>,
    pub retained: Option<ProcessView>,
    pub detail: Seq<char>,
    pub error: ErrorView,
}

impl View for Teardown {
    type V = TeardownView;

    open spec fn view(&self) -> TeardownView {
        TeardownView {
            generation: self.generation,
            files: views(self.files@),
            process: optional(self.process),
            forget: match self.forget {
                Some(endpoint) => Some(optional(endpoint)),
                None => None,
            },
            retained: optional(self.retained),
            detail: self.detail@,
            error: self.error@,
        }
    }
}

impl Teardown {
    /// Takes in whether the process could be ended: one that could not is kept for a later attempt.
    pub fn ended(self, success: bool) -> (result: Teardown)
        ensures
            result@ == (TeardownView {
                process: None,
                retained: if self@.process is Some && !success {
                    self@.process
                } else {
                    self@.retained
                },
                ..self@
            }),
    {
        let retained = match self.process {
            Some(process) => if success {
                self.retained
            } else {
                Some(process)
            },
            None => self.retained,
        };
        Teardown {
            generation: self.generation,
            files: self.files,
            process: None,
            forget: self.forget,
            retained,
            detail: self.detail,
            error: self.error,
        }
    }

    /// Records the failure and returns the error of the load.
    pub fn finish(self, manager: &mut RuntimeManager, now: i64) -> (result: RuntimeError)
        requires
            old(manager)@.wf(),
        ensures
            final(manager)@.wf(),
            old(manager)@.begins_nothing(final(manager)@),
            final(manager)@ == old(manager)@.failed(
                self@.generation,
                self@.detail,
                self@.retained,
                now,
            ),
            result@ == self@.error,
    {
        manager.fail_loading(self.generation, self.detail.as_str(), &self.retained, now);
        self.error
    }
}

/// The ways to launch the backend are being worked out.
pub struct BuildingLaunch {
    pub load: AdmittedLoad,
    pub selection: SelectedRuntime,
}

impl BuildingLaunch {
    pub fn built(
        self,
        manager: &mut RuntimeManager,
        attempts: Result<Vec<LaunchAttempt>, String>,
        now: i64,
    ) -> (result: Result<Launching, RuntimeError>)
        requires
            old(manager)@.wf(),
        ensures
            final(manager)@.wf(),
            old(manager)@.begins_nothing(final(manager)@),
            match attempts {
                Err(detail) => step_failed(
                    old(manager)@,
                    final(manager)@,
                    self.load@,
                    detail@,
                    now,
                ) && (result matches Err(error) && error@ == ErrorView::StartupFailed(detail@)),
                Ok(attempts) => if attempts.len() == 0 {
                    let detail = "engine adapter produced no launch attempts"@;
                    step_failed(old(manager)@, final(manager)@, self.load@, detail, now) && (
                    result matches Err(error) && error@ == ErrorView::StartupFailed(detail))
                } else {
                    final(manager)@ == old(manager)@ && (result matches Ok(next) && next.load@
                        == self.load@ && next.selection@ == self.selection@ && views(next.pending@)
                        == views(attempts@) && next.tried@.len() == 0)
                },
            },
    {
        match attempts {
            Err(detail) => {
                manager.fail_loading(self.load.generation, detail.as_str(), &None, now);
                Err(RuntimeError::StartupFailed(detail))
            },
            Ok(attempts) => if attempts.len() == 0 {
                manager.fail_loading(
                    self.load.generation,
                    "engine adapter produced no launch attempts",
                    &None,
                    now,
                );
                Err(
                    RuntimeError::StartupFailed(
                        "engine adapter produced no launch attempts".to_owned(),
                    ),
                )
            } else {
                Ok(
                    Launching {
                        load: self.load,
                        selection: self.selection,
                        pending: attempts,
                        tried: Vec::new(),
                    },
                )
            },
        }
    }
}

/// There are ways left to launch the backend.
pub struct Launching {
    pub load: AdmittedLoad,
    pub selection: SelectedRuntime,
    /// The launches that were not tried yet.
    pub pending: Vec<LaunchAttempt>,
    /// The KV modes that served too little context.
    pub tried: Vec<ContextAttempt>,
}

impl Launching {
    /// Takes up the next launch, if the load was not called off meanwhile.
    pub fn next(self, manager: &mut RuntimeManager) -> (result: Result<PreparingLaunch, Teardown>)
        requires
            old(manager)@.wf(),
            self.pending.len() > 0,
        ensures
            final(manager)@.wf(),
            old(manager)@.begins_nothing(final(manager)@),
            if !old(manager)@.continues(self.load@) {
                final(manager)@ == old(manager)@ && (result matches Err(teardown) && teardown@
                    == (TeardownView {
                    generation: self.load@.generation,
                    files: files_of(views(self.pending@)),
                    process: None,
                    forget: None,
                    retained: None,
                    detail: cancelled_text(),
                    error: ErrorView::Operation(cancelled_text()),
                }))
            } else {
                final(manager)@ == old(manager)@.progressed(
                    self.load@.generation,
                    match self.pending@[0]@.preparation {
                        Some(progress) => progress,
                        None => ProgressView::indeterminate(BackendLoadPhase::PreparingLaunch),
                    },
                ) && (result matches Ok(next) && next.attempt@ == self.pending@[0]@ && next.launches.load@
                    == self.load@ && next.launches.selection@ == self.selection@ && views(
                    next.launches.pending@,
                ) == views(self.pending@).skip(1) && next.launches.tried@ == self.tried@)
            },
    {
        let mut launches = self;
        if !manager.load_continues(&launches.load) {
            let none: Vec<String> = Vec::new();
            let files = collect_files(&none, &launches.pending);
            proof {
                assert(views(none@) + files_of(views(launches.pending@)) =~= files_of(
                    views(launches.pending@),
                ));
            }
            return Err(
                Teardown {
                    generation: launches.load.generation,
                    files,
                    process: None,
                    forget: None,
                    retained: None,
                    detail: "model load was cancelled".to_owned(),
                    error: RuntimeError::Operation("model load was cancelled".to_owned()),
                },
            );
        }
        let ghost before = launches.pending@;
        let attempt = launches.pending.remove(0);
        proof {
            assert(views(launches.pending@) =~= views(before).skip(1));
        }
        let progress = match &attempt.preparation {
            Some(progress) => progress.duplicate(),
            None => BackendLoadProgress::indeterminate(BackendLoadPhase::PreparingLaunch),
        };
        manager.set_load_progress(launches.load.generation, progress);
        Ok(PreparingLaunch { launches, attempt })
    }

    /// What is to be done when a launch fails before its process is there.
    fn give_up(self, attempt: &LaunchAttempt, detail: String, error: RuntimeError) -> (result: Teardown)
        ensures
            result@ == (TeardownView {
                generation: self.load@.generation,
                files: attempt@.temporary_files + files_of(views(self.pending@)),
                process: None,
                forget: Some(attempt@.endpoint),
                retained: None,
                detail: detail@,
                error: error@,
            }),
    {
        Teardown {
            generation: self.load.generation,
            files: collect_files(&attempt.temporary_files, &self.pending),
            process: None,
            forget: Some(duplicate_option(&attempt.endpoint)),
            retained: None,
            detail,
            error,
        }
    }

    /// What is to be done when a launch fails while its process is there.
    fn abandon(
        self,
        process: ProcessDescriptor,
        endpoint: Option<String>,
        detail: String,
        error: RuntimeError,
    ) -> (result: Teardown)
        ensures
            result@ == (TeardownView {
                generation: self.load@.generation,
                files: files_of(views(self.pending@)),
                process: Some(process@),
                forget: Some(optional(endpoint)),
                retained: None,
                detail: detail@,
                error: error@,
            }),
    {
        let none: Vec<String> = Vec::new();
        let files = collect_files(&none, &self.pending);
        proof {
            assert(views(none@) + files_of(views(self.pending@)) =~= files_of(
                views(self.pending@),
            ));
        }
        Teardown {
            generation: self.load.generation,
            files,
            process: Some(process),
            forget: Some(endpoint),
            retained: None,
            detail,
            error,
        }
    }
}

/// The engine prepares a launch. No process exists yet.
pub struct PreparingLaunch {
    pub launches: Launching,
    pub attempt: LaunchAttempt,
}

impl PreparingLaunch {
    pub open spec fn given_up(self, detail: Seq<char>, error: ErrorView) -> TeardownView {
        TeardownView {
            generation: self.launches.load@.generation,
            files: self.attempt@.temporary_files + files_of(views(self.launches.pending@)),
            process: None,
            forget: Some(self.attempt@.endpoint),
            retained: None,
            detail,
            error,
        }
    }

    /// The launch is prepared. Only then, and only if the load was not called off meanwhile, be it by
    /// an unload or by a shutdown, is a process spawned.
    pub fn prepared(self, manager: &mut RuntimeManager, outcome: Result<(), String>) -> (result: Result<
        SpawningBackend,
        Teardown,
    >)
        requires
            old(manager)@.wf(),
        ensures
            final(manager)@.wf(),
            old(manager)@.begins_nothing(final(manager)@),
            match outcome {
                Err(detail) => final(manager)@ == old(manager)@ && (result matches Err(teardown)
                    && teardown@ == self.given_up(detail@, ErrorView::StartupFailed(detail@))),
                Ok(()) => if !old(manager)@.continues(self.launches.load@) {
                    final(manager)@ == old(manager)@ && (result matches Err(teardown) && teardown@
                        == self.given_up(cancelled_text(), ErrorView::Operation(cancelled_text())))
                } else {
                    final(manager)@ == old(manager)@.entered(
                        self.launches.load@,
                        BackendLoadPhase::SpawningBackend,
                    ) && (result matches Ok(next) && next.launches == self.launches && next.attempt
                        == self.attempt)
                },
            },
    {
        if let Err(detail) = outcome {
            let error = RuntimeError::StartupFailed(detail.clone());
            return Err(self.launches.give_up(&self.attempt, detail, error));
        }
        if !manager.load_continues(&self.launches.load) {
            let error = RuntimeError::Operation("model load was cancelled".to_owned());
            return Err(
                self.launches.give_up(
                    &self.attempt,
                    "model load was cancelled".to_owned(),
                    error,
                ),
            );
        }
        manager.set_load_progress(
            self.launches.load.generation,
            BackendLoadProgress::indeterminate(BackendLoadPhase::SpawningBackend),
        );
        Ok(SpawningBackend { launches: self.launches, attempt: self.attempt })
    }
}


/// A process is being spawned for a prepared launch.
pub struct SpawningBackend {
    pub launches: Launching,
    pub attempt: LaunchAttempt,
}

impl SpawningBackend {
    pub open spec fn given_up(self, detail: Seq<char>, error: ErrorView) -> TeardownView {
        TeardownView {
            generation: self.launches.load@.generation,
            files: self.attempt@.temporary_files + files_of(views(self.launches.pending@)),
            process: None,
            forget: Some(self.attempt@.endpoint),
            retained: None,
            detail,
            error,
        }
    }

    pub open spec fn abandoned(
        self,
        process: ProcessView,
        endpoint: Option<Seq<char>>,
        detail: Seq<char>,
        error: ErrorView,
    ) -> TeardownView {
        TeardownView {
            generation: self.launches.load@.generation,
            files: files_of(views(self.launches.pending@)),
            process: Some(process),
            forget: Some(endpoint),
            retained: None,
            detail,
            error,
        }
    }

    /// The record of the launch. `parent` is the environment of the parent process.
    pub open spec fn provenance(
        self,
        process: ProcessView,
        parent: Seq<(Seq<char>, Seq<char>)>,
    ) -> ProvenanceView {
        let attempt = self.attempt@;
        ProvenanceView {
            content_sha256: self.launches.load@.model_profile.content_sha256,
            selection_source: self.launches.selection@.source,
            runtime_version: attempt.runtime_version,
            runtime_variant: attempt.runtime_variant,
            runtime_executable_sha256: attempt.runtime_executable_sha256,
            effective: attempt.effective,
            normalized_settings: attempt.normalized_settings,
            native_arguments: recorded_arguments(attempt.native_arguments, 0, None),
            native_environment: recorded_environment(
                if attempt.inherits_parent_environment {
                    with_inherited(
                        own_variables(attempt.environment),
                        parent,
                        attempt.environment_remove,
                    )
                } else {
                    own_variables(attempt.environment)
                },
            ),
            inherits_parent_environment: attempt.inherits_parent_environment,
            process_id: process.process_id,
            process_start_identity: Some(process.supervisor_id),
            private_backend_endpoint: process.endpoint->0,
            launched_at_unix: process.launched_at_unix,
        }
    }

    pub fn spawned(
        self,
        manager: &mut RuntimeManager,
        process: Result<ProcessDescriptor, String>,
        parent: &Vec<(String, String)>,
    ) -> (result: Result<Subscribing, Teardown>)
        requires
            old(manager)@.wf(),
        ensures
            final(manager)@.wf(),
            old(manager)@.begins_nothing(final(manager)@),
            match process {
                Err(detail) => final(manager)@ == old(manager)@ && (result matches Err(teardown)
                    && teardown@ == self.given_up(detail@, ErrorView::StartupFailed(detail@))),
                Ok(process) => {
                    let load = self.launches.load@;
                    let id = load.model_profile.id;
                    let attached = old(manager)@.with_backend(
                        id,
                        BackendView {
                            loading_process: Some(process@),
                            ..old(manager)@.backends[id]
                        },
                    );
                    if !old(manager)@.continues(load) {
                        final(manager)@ == old(manager)@ && (result matches Err(teardown)
                            && teardown@ == self.abandoned(
                            process@,
                            process@.endpoint,
                            cancelled_text(),
                            ErrorView::Operation(cancelled_text()),
                        ))
                    } else if process@.endpoint is None {
                        let detail = "engine launch did not provide a backend endpoint"@;
                        final(manager)@ == attached && (result matches Err(teardown) && teardown@
                            == self.abandoned(
                            process@,
                            None,
                            detail,
                            ErrorView::StartupFailed(detail),
                        ))
                    } else {
                        final(manager)@ == attached.with_backend(
                            id,
                            BackendView {
                                provenance: Some(self.provenance(process@, pair_views(parent@))),
                                ..attached.backends[id]
                            },
                        ) && (result matches Ok(next) && next.started.launches == self.launches
                            && next.started.process@ == process@ && Some(next.started.endpoint@)
                            == process@.endpoint)
                    }
                },
            },
    {
        let process = match process {
            Err(detail) => {
                let error = RuntimeError::StartupFailed(detail.clone());
                return Err(self.launches.give_up(&self.attempt, detail, error));
            },
            Ok(process) => process,
        };
        if !manager.load_continues(&self.launches.load) {
            let endpoint = duplicate_option(&process.endpoint);
            let error = RuntimeError::Operation("model load was cancelled".to_owned());
            return Err(
                self.launches.abandon(
                    process,
                    endpoint,
                    "model load was cancelled".to_owned(),
                    error,
                ),
            );
        }
        manager.attach_process(&self.launches.load, &process);
        let endpoint = match &process.endpoint {
            Some(endpoint) => endpoint.clone(),
            None => {
                let detail = "engine launch did not provide a backend endpoint".to_owned();
                let error = RuntimeError::StartupFailed(detail.clone());
                return Err(self.launches.abandon(process, None, detail, error));
            },
        };
        let attempt = self.attempt;
        let native_arguments = native_argument_provenance(&attempt.native_arguments);
        let native_environment = environment_provenance(
            &attempt.environment,
            &attempt.environment_remove,
            attempt.inherits_parent_environment,
            parent,
        );
        let provenance = RuntimeProvenance {
            content_sha256: self.launches.load.model_profile.content_sha256.clone(),
            selection_source: self.launches.selection.source,
            runtime_version: attempt.runtime_version,
            runtime_variant: attempt.runtime_variant,
            runtime_executable_sha256: attempt.runtime_executable_sha256,
            effective: attempt.effective,
            normalized_settings: attempt.normalized_settings,
            native_arguments,
            native_environment,
            inherits_parent_environment: attempt.inherits_parent_environment,
            process_id: process.process_id,
            process_start_identity: Some(process.supervisor_id.clone()),
            private_backend_endpoint: endpoint.clone(),
            launched_at_unix: process.launched_at_unix,
        };
        proof {
            assert(provenance@ =~= self.provenance(process@, pair_views(parent@)));
        }
        manager.record_provenance(&self.launches.load, provenance);
        Ok(Subscribing { started: Started { launches: self.launches, process, endpoint } })
    }
}

impl RuntimeManager {
    fn attach_process(&mut self, load: &AdmittedLoad, process: &ProcessDescriptor)
        requires
            old(self)@.wf(),
            old(self)@.backends.dom().contains(load@.model_profile.id),
        ensures
            final(self)@.wf(),
            old(self)@.begins_nothing(final(self)@),
            final(self)@ == old(self)@.with_backend(
                load@.model_profile.id,
                BackendView {
                    loading_process: Some(process@),
                    ..old(self)@.backends[load@.model_profile.id]
                },
            ),
    {
        let ghost before = self@;
        let id = load.model_profile.id.as_str();
        match self.backends.remove(id) {
            Some(mut backend) => {
                backend.loading_process = Some(process.duplicate());
                self.backends.insert(id.to_owned(), backend);
                proof {
                    assert(self@.backends =~= before.backends.insert(id@, self@.backends[id@]));
                }
            },
            None => {},
        }
    }

    fn record_provenance(&mut self, load: &AdmittedLoad, provenance: RuntimeProvenance)
        requires
            old(self)@.wf(),
            old(self)@.backends.dom().contains(load@.model_profile.id),
        ensures
            final(self)@.wf(),
            old(self)@.begins_nothing(final(self)@),
            final(self)@ == old(self)@.with_backend(
                load@.model_profile.id,
                BackendView {
                    provenance: Some(provenance@),
                    ..old(self)@.backends[load@.model_profile.id]
                },
            ),
    {
        let ghost before = self@;
        let id = load.model_profile.id.as_str();
        match self.backends.remove(id) {
            Some(mut backend) => {
                backend.provenance = Some(provenance);
                self.backends.insert(id.to_owned(), backend);
                proof {
                    assert(self@.backends =~= before.backends.insert(id@, self@.backends[id@]));
                }
            },
            None => {},
        }
    }

    /// Forgets the process of a load that was ended for another attempt.
    fn detach_process(&mut self, load: &AdmittedLoad)
        requires
            old(self)@.wf(),
        ensures
            final(self)@.wf(),
            old(self)@.begins_nothing(final(self)@),
            final(self)@ == if old(self)@.backends.dom().contains(load@.model_profile.id) {
                old(self)@.with_backend(
                    load@.model_profile.id,
                    BackendView {
                        loading_process: None,
                        ..old(self)@.backends[load@.model_profile.id]
                    },
                )
            } else {
                old(self)@
            },
    {
        let ghost before = self@;
        let id = load.model_profile.id.as_str();
        match self.backends.remove(id) {
            Some(mut backend) => {
                backend.loading_process = None;
                self.backends.insert(id.to_owned(), backend);
                proof {
                    assert(self@.backends =~= before.backends.insert(id@, self@.backends[id@]));
                }
            },
            None => {
                proof {
                    assert(self@ =~= before);
                }
            },
        }
    }
}

/// A load whose process is there.
pub struct Started {
    pub launches: Launching,
    pub process: ProcessDescriptor,
    pub endpoint: String,
}

impl Started {
    /// What is to be done when the load fails now.
    pub open spec fn abandoned(self, detail: Seq<char>, error: ErrorView) -> TeardownView {
        TeardownView {
            generation: self.launches.load@.generation,
            files: files_of(views(self.launches.pending@)),
            process: Some(self.process@),
            forget: Some(Some(self.endpoint@)),
            retained: None,
            detail,
            error,
        }
    }

    fn abandon(self, detail: String, error: RuntimeError) -> (result: Teardown)
        ensures
            result@ == self.abandoned(detail@, error@),
    {
        self.launches.abandon(self.process, Some(self.endpoint), detail, error)
    }

    fn fail_startup(self, detail: String) -> (result: Teardown)
        ensures
            result@ == self.abandoned(detail@, ErrorView::StartupFailed(detail@)),
    {
        let error = RuntimeError::StartupFailed(detail.clone());
        self.abandon(detail, error)
    }
}

/// The end of the process is about to be watched.
pub struct Subscribing {
    pub started: Started,
}

impl Subscribing {
    /// `deadline` is when the startup has taken too long, in the milliseconds of the clock that the
    /// startup is watched with.
    pub fn subscribed(self, manager: &mut RuntimeManager, outcome: Result<(), String>, deadline: u64) -> (result:
        Result<WaitingForReadiness, Teardown>)
        requires
            old(manager)@.wf(),
        ensures
            final(manager)@.wf(),
            old(manager)@.begins_nothing(final(manager)@),
            match outcome {
                Err(detail) => final(manager)@ == old(manager)@ && (result matches Err(teardown)
                    && teardown@ == self.started.abandoned(
                    detail@,
                    ErrorView::StartupFailed(detail@),
                )),
                Ok(()) => final(manager)@ == old(manager)@.entered(
                    self.started.launches.load@,
                    BackendLoadPhase::LoadingModel,
                ) && (result matches Ok(next) && next.started == self.started && next.deadline
                    == deadline && next.published is None),
            },
    {
        match outcome {
            Err(detail) => Err(self.started.fail_startup(detail)),
            Ok(()) => {
                manager.set_load_progress(
                    self.started.launches.load.generation,
                    BackendLoadProgress::indeterminate(BackendLoadPhase::LoadingModel),
                );
                Ok(WaitingForReadiness { started: self.started, deadline, published: None })
            },
        }
    }
}

/// The backend is asked again and again whether it is ready.
pub struct WaitingForReadiness {
    pub started: Started,
    pub deadline: u64,
    /// The last progress that was published.
    pub published: Option<BackendLoadProgress>,
}

/// What a backend that was asked for its health is.
pub enum Readiness {
    Ready(VerifyingStartup),
    Waiting(WaitingForReadiness),
}

impl WaitingForReadiness {
    /// Begins a round: the process must not have ended, nor the startup have taken too long.
    pub fn poll(self, exit: &Option<ProcessExit>, now: u64, startup_timeout: u64) -> (result: Result<
        WaitingForReadiness,
        Teardown,
    >)
        ensures
            match *exit {
                Some(exit) => result matches Err(teardown) && teardown@ == self.started.abandoned(
                    ErrorView::StartupFailed(exit_text(exit@)).text(),
                    ErrorView::StartupFailed(exit_text(exit@)),
                ),
                None => if now >= self.deadline {
                    result matches Err(teardown) && teardown@ == self.started.abandoned(
                        ErrorView::StartupTimedOut(startup_timeout).text(),
                        ErrorView::StartupTimedOut(startup_timeout),
                    )
                } else {
                    result == Ok::<WaitingForReadiness, Teardown>(self)
                },
            },
    {
        match exit {
            Some(exit) => {
                let error = RuntimeError::StartupFailed(exit_detail(exit));
                let detail = error.message();
                return Err(self.started.abandon(detail, error));
            },
            None => {},
        }
        if now >= self.deadline {
            let error = RuntimeError::StartupTimedOut(startup_timeout);
            let detail = error.message();
            return Err(self.started.abandon(detail, error));
        }
        Ok(self)
    }

    /// Takes in whether the backend is healthy. That it cannot be reached yet is no failure.
    pub fn health(self, manager: &mut RuntimeManager, health: Result<bool, EngineError>) -> (result: Result<
        Readiness,
        Teardown,
    >)
        requires
            old(manager)@.wf(),
        ensures
            final(manager)@.wf(),
            old(manager)@.begins_nothing(final(manager)@),
            match health {
                Ok(true) => final(manager)@ == old(manager)@.entered(
                    self.started.launches.load@,
                    BackendLoadPhase::VerifyingStartup,
                ) && (result matches Ok(Readiness::Ready(next)) && next.started == self.started
                    && next.polls == 0),
                Ok(false)
                | Err(EngineError::BackendUnavailable(_))
                | Err(EngineError::Operation(_)) => final(manager)@ == old(manager)@ && (
                result matches Ok(Readiness::Waiting(next)) && next == self),
                Err(error) => final(manager)@ == old(manager)@ && (result matches Err(teardown)
                    && teardown@ == self.started.abandoned(
                    ErrorView::StartupFailed(error@.text()).text(),
                    ErrorView::StartupFailed(error@.text()),
                )),
            },
    {
        match health {
            Ok(true) => {
                manager.set_load_progress(
                    self.started.launches.load.generation,
                    BackendLoadProgress::indeterminate(BackendLoadPhase::VerifyingStartup),
                );
                Ok(Readiness::Ready(VerifyingStartup { started: self.started, polls: 0 }))
            },
            Ok(false) => Ok(Readiness::Waiting(self)),
            Err(error) => match error {
                EngineError::BackendUnavailable(_) | EngineError::Operation(_) => Ok(
                    Readiness::Waiting(self),
                ),
                _ => {
                    let error = RuntimeError::StartupFailed(error.message());
                    let detail = error.message();
                    Err(self.started.abandon(detail, error))
                },
            },
        }
    }

    /// Publishes progress that was read from the output of the engine, if there is any and it is not
    /// what was published last. It never fails a startup.
    pub fn observe_progress(self, manager: &mut RuntimeManager, progress: Option<BackendLoadProgress>) -> (result:
        WaitingForReadiness)
        requires
            old(manager)@.wf(),
        ensures
            final(manager)@.wf(),
            old(manager)@.begins_nothing(final(manager)@),
            result.started == self.started,
            result.deadline == self.deadline,
            match progress {
                Some(observed) => {
                    let clean = observed@.sanitized();
                    if self.published is Some && self.published->0@.says(clean) {
                        final(manager)@ == old(manager)@ && optional(result.published) == optional(
                            self.published,
                        )
                    } else {
                        final(manager)@ == old(manager)@.progressed(
                            self.started.launches.load@.generation,
                            clean,
                        ) && optional(result.published) == Some(clean)
                    }
                },
                None => final(manager)@ == old(manager)@ && optional(result.published) == optional(
                    self.published,
                ),
            },
    {
        match progress {
            None => self,
            Some(observed) => {
                let clean = observed.sanitized();
                let known: bool = match &self.published {
                    Some(published) => published.same_as(&clean),
                    None => false,
                };
                if known {
                    self
                } else {
                    manager.set_load_progress(
                        self.started.launches.load.generation,
                        clean.duplicate(),
                    );
                    WaitingForReadiness {
                        started: self.started,
                        deadline: self.deadline,
                        published: Some(clean),
                    }
                }
            },
        }
    }

    /// Ends a round: unless nobody watches the process any more, the next one can begin.
    pub fn waited(self, monitor_closed: bool) -> (result: Result<WaitingForReadiness, Teardown>)
        ensures
            if monitor_closed {
                let error = ErrorView::StartupFailed(
                    "process exit monitor closed during startup"@,
                );
                result matches Err(teardown) && teardown@ == self.started.abandoned(
                    error.text(),
                    error,
                )
            } else {
                result == Ok::<WaitingForReadiness, Teardown>(self)
            },
    {
        if monitor_closed {
            let error = RuntimeError::StartupFailed(
                "process exit monitor closed during startup".to_owned(),
            );
            let detail = error.message();
            return Err(self.started.abandon(detail, error));
        }
        Ok(self)
    }
}

/// What an engine says of a startup.
pub enum StartupObservation {
    Ready(NormalizedSettings),
    /// The KV mode serves less context than is needed; another one is to be tried.
    RetryContextCapacity { kv_mode: String, observed_context: u64, minimum_context: u64 },
}

/// What is shown when a KV mode serves too little context.
pub open spec fn retry_text(kv_mode: Seq<char>, observed: u64, minimum: u64) -> Seq<char> {
    "KV mode "@ + kv_mode + " served "@ + decimal(observed as nat) + " of the required "@ + decimal(
        minimum as nat,
    ) + " context tokens; retrying with the next configured automatic KV mode"@
}

pub fn retry_context_capacity_message(
    kv_mode: &str,
    observed_context: u64,
    minimum_context: u64,
) -> (result: String)
    ensures
        result@ == retry_text(kv_mode@, observed_context, minimum_context),
{
    let observed = decimal_text(observed_context);
    let minimum = decimal_text(minimum_context);
    cat7(
        "KV mode ",
        kv_mode,
        " served ",
        observed.as_str(),
        " of the required ",
        minimum.as_str(),
        " context tokens; retrying with the next configured automatic KV mode",
    )
}

/// The startup is held against what it was to prove.
pub struct VerifyingStartup {
    pub started: Started,
    /// How often the startup could not be observed.
    pub polls: u8,
}

/// How a startup that was observed goes on.
pub enum Verification {
    Proven(MeasuringGeneration),
    Retry(RetryingContext),
    /// Nothing to observe yet: to be looked at again a little later.
    Unobservable(VerifyingStartup),
}

impl VerifyingStartup {
    pub open spec fn unproven(self, error: Seq<char>) -> TeardownView {
        let detail = "engine startup did not prove the effective settings/startup contract: "@
            + error;
        self.started.abandoned(detail, ErrorView::StartupFailed(detail))
    }

    fn refuse(self, error: &str) -> (result: Teardown)
        ensures
            result@ == self.unproven(error@),
    {
        let detail = cat2(
            "engine startup did not prove the effective settings/startup contract: ",
            error,
        );
        self.started.fail_startup(detail)
    }

    /// The last lines of the error output could not be read.
    pub fn tail_unreadable(self, error: &str) -> (result: Teardown)
        ensures
            result@ == self.unproven("could not read bounded engine startup output: "@ + error@),
    {
        let detail = cat2("could not read bounded engine startup output: ", error);
        self.refuse(detail.as_str())
    }

    /// Takes in what the engine says of the startup; `exited` says whether its process has ended.
    pub fn observed(
        self,
        manager: &mut RuntimeManager,
        observation: Result<StartupObservation, EngineError>,
        exited: bool,
    ) -> (result: Result<Verification, Teardown>)
        requires
            old(manager)@.wf(),
        ensures
            final(manager)@.wf(),
            old(manager)@.begins_nothing(final(manager)@),
            match observation {
                Ok(StartupObservation::Ready(observed)) => final(manager)@ == old(manager)@ && (
                result matches Ok(Verification::Proven(next)) && next.started == self.started
                    && next.observation@ == observed@),
                Ok(
                    StartupObservation::RetryContextCapacity {
                        kv_mode,
                        observed_context,
                        minimum_context,
                    },
                ) => final(manager)@ == old(manager)@.progressed(
                    self.started.launches.load@.generation,
                    ProgressView {
                        message: Some(retry_text(kv_mode@, observed_context, minimum_context)),
                        ..ProgressView::indeterminate(BackendLoadPhase::AllocatingContext)
                    },
                ) && (result matches Ok(Verification::Retry(next)) && next.minimum_context
                    == minimum_context && next.started.process == self.started.process
                    && next.started.endpoint == self.started.endpoint && next.started.launches.load
                    == self.started.launches.load && next.started.launches.selection
                    == self.started.launches.selection && next.started.launches.pending
                    == self.started.launches.pending && views(next.started.launches.tried@)
                    == views(self.started.launches.tried@).push(
                    AttemptView { kv_mode: kv_mode@, observed_context },
                )),
                Err(error) => final(manager)@ == old(manager)@ && if error
                    is BackendUnavailable && self.polls < OBSERVATION_POLLS {
                    if exited {
                        result matches Err(teardown) && teardown@ == self.unproven(
                            "engine exited before startup policy observation completed"@,
                        )
                    } else {
                        result matches Ok(Verification::Unobservable(next)) && next.started
                            == self.started && next.polls == self.polls + 1
                    }
                } else {
                    result matches Err(teardown) && teardown@ == self.unproven(error@.text())
                },
            },
    {
        match observation {
            Ok(StartupObservation::Ready(observation)) => Ok(
                Verification::Proven(MeasuringGeneration { started: self.started, observation }),
            ),
            Ok(
                StartupObservation::RetryContextCapacity {
                    kv_mode,
                    observed_context,
                    minimum_context,
                },
            ) => {
                let message = retry_context_capacity_message(
                    kv_mode.as_str(),
                    observed_context,
                    minimum_context,
                );
                manager.set_load_progress(
                    self.started.launches.load.generation,
                    BackendLoadProgress::with_message(BackendLoadPhase::AllocatingContext, message),
                );
                let mut started = self.started;
                let attempt = ContextAttempt { kv_mode, observed_context };
                proof {
                    lemma_views_push(started.launches.tried@, attempt);
                }
                started.launches.tried.push(attempt);
                Ok(Verification::Retry(RetryingContext { started, minimum_context }))
            },
            Err(error) => {
                let unavailable: bool = match &error {
                    EngineError::BackendUnavailable(_) => true,
                    _ => false,
                };
                if unavailable && self.polls < OBSERVATION_POLLS {
                    if exited {
                        Err(
                            self.refuse(
                                "engine exited before startup policy observation completed",
                            ),
                        )
                    } else {
                        Ok(
                            Verification::Unobservable(
                                VerifyingStartup { started: self.started, polls: self.polls + 1 },
                            ),
                        )
                    }
                } else {
                    let text = error.message();
                    Err(self.refuse(text.as_str()))
                }
            },
        }
    }
}

/// A process that serves too little context is being ended.
pub struct RetryingContext {
    pub started: Started,
    pub minimum_context: u64,
}

impl RetryingContext {
    /// Takes in whether the process could be ended. If it was, the engine is to forget the launch
    /// before the load goes on.
    pub fn ended(self, outcome: Result<(), String>) -> (result: Result<RetryingContext, Teardown>)
        ensures
            match outcome {
                Ok(()) => result == Ok::<RetryingContext, Teardown>(self),
                Err(error) => {
                    let detail =
                        "could not stop the insufficient-context backend before KV fallback: "@
                        + error@;
                    result matches Err(teardown) && teardown@ == (TeardownView {
                        process: None,
                        retained: Some(self.started.process@),
                        ..self.started.abandoned(detail, ErrorView::StartupFailed(detail))
                    })
                },
            },
    {
        match outcome {
            Ok(()) => Ok(self),
            Err(error) => {
                let detail = cat2(
                    "could not stop the insufficient-context backend before KV fallback: ",
                    error.as_str(),
                );
                let mut teardown = self.started.fail_startup(detail);
                teardown.retained = teardown.process.take();
                Err(teardown)
            },
        }
    }

    /// What a load that has no launch left says.
    pub open spec fn exhausted(self) -> Seq<char> {
        "no exact-runtime-supported automatic KV mode met the "@ + decimal(
            self.minimum_context as nat,
        ) + "-token minimum; attempted modes and observed contexts: "@ + joined(
            views(self.started.launches.tried@).map_values(
                |attempt: AttemptView|
                    attempt.kv_mode + "="@ + decimal(attempt.observed_context as nat),
            ),
            ", "@,
        )
    }

    fn describe_attempts(&self) -> (result: String)
        ensures
            result@ == self.exhausted(),
    {
        let tried = &self.started.launches.tried;
        let mut parts: Vec<String> = Vec::new();
        let mut i: usize = 0;
        let ghost shown = |attempt: AttemptView|
            attempt.kv_mode + "="@ + decimal(attempt.observed_context as nat);
        let ghost all = views(tried@).map_values(shown);
        proof {
            assert(views(parts@) =~= all.take(0));
        }
        while i < tried.len()
            invariant
                i <= tried.len(),
                shown == (|attempt: AttemptView|
                    attempt.kv_mode + "="@ + decimal(attempt.observed_context as nat)),
                all == views(tried@).map_values(shown),
                views(parts@) == all.take(i as int),
            decreases tried.len() - i,
        {
            let context = decimal_text(tried[i].observed_context);
            let part = cat3(tried[i].kv_mode.as_str(), "=", context.as_str());
            proof {
                lemma_views_push(parts@, part);
                assert(all[i as int] == part@);
                assert(all.take(i + 1) =~= all.take(i as int).push(all[i as int]));
            }
            parts.push(part);
            i += 1;
        }
        proof {
            assert(all.take(i as int) =~= all);
        }
        let minimum = decimal_text(self.minimum_context);
        let attempts = join(&parts, ", ");
        cat4(
            "no exact-runtime-supported automatic KV mode met the ",
            minimum.as_str(),
            "-token minimum; attempted modes and observed contexts: ",
            attempts.as_str(),
        )
    }

    /// Goes on with the next launch, or fails if there is none.
    pub fn retry(self, manager: &mut RuntimeManager, now: i64) -> (result: Result<
        Launching,
        RuntimeError,
    >)
        requires
            old(manager)@.wf(),
        ensures
            final(manager)@.wf(),
            old(manager)@.begins_nothing(final(manager)@),
            ({
                let id = self.started.launches.load@.model_profile.id;
                let detached = if old(manager)@.backends.dom().contains(id) {
                    old(manager)@.with_backend(
                        id,
                        BackendView { loading_process: None, ..old(manager)@.backends[id] },
                    )
                } else {
                    old(manager)@
                };
                if self.started.launches.pending.len() == 0 {
                    step_failed(
                        detached,
                        final(manager)@,
                        self.started.launches.load@,
                        self.exhausted(),
                        now,
                    ) && (result matches Err(error) && error@ == ErrorView::StartupFailed(
                        self.exhausted(),
                    ))
                } else {
                    final(manager)@ == detached && (result matches Ok(next) && next
                        == self.started.launches)
                }
            }),
    {
        manager.detach_process(&self.started.launches.load);
        if self.started.launches.pending.len() == 0 {
            let detail = self.describe_attempts();
            manager.fail_loading(
                self.started.launches.load.generation,
                detail.as_str(),
                &None,
                now,
            );
            return Err(RuntimeError::StartupFailed(detail));
        }
        Ok(self.started.launches)
    }
}

/// The sampling defaults of the engine are being asked for.
pub struct MeasuringGeneration {
    pub started: Started,
    pub observation: NormalizedSettings,
}

impl MeasuringGeneration {
    pub fn measured(self, settings: Result<EffectiveGenerationSettings, String>) -> (result: Result<
        FinishingLoad,
        Teardown,
    >)
        ensures
            match settings {
                Err(error) => {
                    let detail =
                        "could not obtain effective generation settings from the engine: "@
                        + error@;
                    result matches Err(teardown) && teardown@ == self.started.abandoned(
                        detail,
                        ErrorView::StartupFailed(detail),
                    )
                },
                Ok(settings) => if self.observation.resolved is Other {
                    let detail =
                        "could not record effective generation settings from the engine: "@
                        + "startup observation `resolved_settings` must be a JSON object"@;
                    result matches Err(teardown) && teardown@ == self.started.abandoned(
                        detail,
                        ErrorView::StartupFailed(detail),
                    )
                } else {
                    result matches Ok(next) && next.started == self.started
                        && next.observation@ == self.observation@.with_generation(settings@)
                        && next.generation_settings@ == settings@
                },
            },
    {
        let settings = match settings {
            Err(error) => {
                let detail = cat2(
                    "could not obtain effective generation settings from the engine: ",
                    error.as_str(),
                );
                return Err(self.started.fail_startup(detail));
            },
            Ok(settings) => settings,
        };
        let mut observation = self.observation;
        match merge_effective_generation_settings(&mut observation, &settings) {
            Err(error) => {
                let text = error.message();
                let detail = cat2(
                    "could not record effective generation settings from the engine: ",
                    text.as_str(),
                );
                Err(self.started.fail_startup(detail))
            },
            Ok(()) => Ok(
                FinishingLoad {
                    started: self.started,
                    observation,
                    generation_settings: settings,
                },
            ),
        }
    }
}

/// Everything is proven; the backend is about to serve.
pub struct FinishingLoad {
    pub started: Started,
    pub observation: NormalizedSettings,
    pub generation_settings: EffectiveGenerationSettings,
}

impl FinishingLoad {
    /// The backend when it serves.
    pub open spec fn serving(self, backend: BackendView) -> BackendView {
        let load = self.started.launches.load@;
        BackendView {
            lifecycle: BackendLifecycle::Running,
            loading_process: None,
            cancel_loading: false,
            load_progress: None,
            profile_role: load.profile_role,
            residency: load.residency,
            loading_lease_held: false,
            provenance: match backend.provenance {
                Some(provenance) => Some(
                    provenance.observed(
                        self.observation@.with_attempts(views(self.started.launches.tried@)),
                        self.generation_settings@,
                    ),
                ),
                None => None,
            },
            running: Some(
                RunningView {
                    process: self.started.process@,
                    endpoint: self.started.endpoint@,
                    generation_settings: self.generation_settings@,
                    lease_held: backend.loading_lease_held,
                },
            ),
            ..backend
        }
    }

    /// Whether the load is no longer the one that its Model Profile is in.
    pub open spec fn outdated(self, state: ManagerView) -> bool {
        let load = self.started.launches.load@;
        let id = load.model_profile.id;
        !(state.backends.dom().contains(id) && state.backends[id].generation == load.generation
            && state.backends[id].lifecycle == BackendLifecycle::Loading) || state.cancelled(
            load.cancellation_epoch,
        )
    }

    /// Why an outdated load ends.
    pub open spec fn reason(self, state: ManagerView) -> Seq<char> {
        let load = self.started.launches.load@;
        let id = load.model_profile.id;
        if (state.backends.dom().contains(id) && (state.backends[id].cancel_loading
            || state.backends[id].lifecycle == BackendLifecycle::Stopping)) || state.cancelled(
            load.cancellation_epoch,
        ) {
            cancelled_text()
        } else {
            "runtime generation changed while the model was loading"@
        }
    }

    /// Puts the backend into service, unless the load was replaced or called off.
    pub fn finish(self, manager: &mut RuntimeManager, now: i64) -> (result: Result<
        ControlStatus,
        Teardown,
    >)
        requires
            old(manager)@.wf(),
        ensures
            final(manager)@.wf(),
            old(manager)@.begins_nothing(final(manager)@),
            ({
                let load = self.started.launches.load@;
                let id = load.model_profile.id;
                if self.outdated(old(manager)@) {
                    let detail = self.reason(old(manager)@);
                    final(manager)@ == old(manager)@ && (result matches Err(teardown) && teardown@
                        == (TeardownView {
                        generation: load.generation,
                        files: Seq::empty(),
                        process: Some(self.started.process@),
                        forget: Some(self.started.process@.endpoint),
                        retained: None,
                        detail,
                        error: ErrorView::Operation(detail),
                    }))
                } else {
                    final(manager)@ == old(manager)@.with_backend(
                        id,
                        self.serving(old(manager)@.backends[id]),
                    ).noticed(
                        now,
                        RuntimeNoticeLevel::Info,
                        "Model Profile "@ + id + " is ready (artifact "@ + load.model_id + ")"@,
                    ) && (result matches Ok(status) && status@ == final(manager)@.status())
                }
            }),
    {
        let mut observation = self.observation;
        record_context_attempts(&mut observation, &self.started.launches.tried);
        let load = self.started.launches.load;
        let id = load.model_profile.id.as_str();
        let called_off: bool = manager.load_cancelled(load.cancellation_epoch);
        let (ours, stopping) = match manager.backends.get(id) {
            Some(backend) => (
                backend.generation == load.generation && backend.lifecycle
                    == BackendLifecycle::Loading,
                backend.cancel_loading || backend.lifecycle == BackendLifecycle::Stopping,
            ),
            None => (false, false),
        };
        if !ours || called_off {
            let detail = if stopping || called_off {
                "model load was cancelled".to_owned()
            } else {
                "runtime generation changed while the model was loading".to_owned()
            };
            let files: Vec<String> = Vec::new();
            proof {
                assert(views(files@) =~= Seq::<Seq<char>>::empty());
            }
            let forget = duplicate_option(&self.started.process.endpoint);
            return Err(
                Teardown {
                    generation: load.generation,
                    files,
                    process: Some(self.started.process),
                    forget: Some(forget),
                    retained: None,
                    detail: detail.clone(),
                    error: RuntimeError::Operation(detail),
                },
            );
        }
        let ghost before = manager@;
        match manager.backends.remove(id) {
            Some(mut backend) => {
                let ghost was = backend@;
                backend.lifecycle = BackendLifecycle::Running;
                backend.loading_process = None;
                backend.cancel_loading = false;
                backend.load_progress = None;
                backend.profile_role = load.profile_role;
                backend.residency = load.residency;
                let recorded_launch = backend.provenance.take();
                if let Some(mut provenance) = recorded_launch {
                    provenance.observe(&observation, &self.generation_settings);
                    backend.provenance = Some(provenance);
                }
                let lease_held: bool = backend.loading_lease_held;
                backend.loading_lease_held = false;
                backend.running =
                Some(
                    RunningBackend {
                        process: self.started.process,
                        endpoint: self.started.endpoint,
                        generation_settings: self.generation_settings,
                        lease_held,
                    },
                );
                proof {
                    assert(backend@ =~= self.serving(was));
                }
                manager.backends.insert(id.to_owned(), backend);
            },
            None => {},
        }
        let message = cat5(
            "Model Profile ",
            id,
            " is ready (artifact ",
            load.model_id.as_str(),
            ")",
        );
        proof {
            assert(manager@ =~= before.with_backend(id@, self.serving(before.backends[id@])));
        }
        manager.push_notice(now, RuntimeNoticeLevel::Info, message);
        Ok(manager.status())
    }
}

/// A load goes on with its settings only where they are resolved and each is one of the engine's; what
/// stops it is told first to last: what cannot be read, an engine that is missing, a model that it does not
/// support, a setting that is not the engine's, and what cannot be resolved.
pub proof fn law_settings_decide_about_a_load(load: LoadView, outcome: SettingsOutcome)
    ensures
        ({
            let verdict = ResolvingSettings::verdict(load, outcome);
            &&& verdict is Ok <==> outcome is Resolved && load.misplaced(0) is None
            &&& outcome matches SettingsOutcome::Unreadable(error) ==> verdict == Err::<
                (),
                (Seq<char>, ErrorView),
            >((error@, ErrorView::Operation(error@)))
            &&& outcome matches SettingsOutcome::Unsupported(reason) ==> verdict == Err::<
                (),
                (Seq<char>, ErrorView),
            >((reason@, ErrorView::Incompatible { model_id: load.model_id, reason: reason@ }))
            &&& outcome matches SettingsOutcome::Unresolved(error) ==> (load.misplaced(0) is None
                ==> verdict == Err::<(), (Seq<char>, ErrorView)>(
                (error@, ErrorView::Operation(error@)),
            ))
            &&& outcome is EngineMissing ==> verdict is Err && verdict->Err_0.1
                is EngineUnavailable
            &&& (outcome is Resolved || outcome is Unresolved) && load.misplaced(0) is Some
                ==> verdict is Err && verdict->Err_0.1 is Operation
        }),
{
}

/// The files of launches are those of each of them, in their order.
pub proof fn law_files_of_launches(launches: Seq<LaunchView>, next: LaunchView)
    ensures
        files_of(launches.push(next)) == files_of(launches) + next.temporary_files,
        files_of(Seq::empty()).len() == 0,
{
    assert(launches.push(next).drop_last() =~= launches);
    assert(launches.push(next).last() == next);
}

/// Warnings are noticed one after the other, as warnings.
pub proof fn law_warnings_are_noticed(
    state: ManagerView,
    first: Seq<char>,
    rest: Seq<Seq<char>>,
    now: i64,
)
    ensures
        state.warned(seq![first] + rest, now) == state.noticed(
            now,
            RuntimeNoticeLevel::Warning,
            first,
        ).warned(rest, now),
        state.warned(Seq::empty(), now) == state,
{
    assert((seq![first] + rest).skip(1) =~= rest);
    assert((seq![first] + rest)[0] == first);
}

/// A load that has its runtime is bound to it: its backend has the engine of its profile and the runtime
/// and holds the lease; no other backend changes, and neither does anything else but the notices.
pub proof fn law_loads_are_bound_to_their_runtime(
    before: ManagerView,
    load: LoadView,
    selection: SelectedView,
    now: i64,
    other: Seq<char>,
)
    requires
        before.backends.contains_key(load.model_profile.id),
    ensures
        ({
            let after = AcquiringRuntime::bound(before, load, selection, now);
            let backend = after.backends[load.model_profile.id];
            &&& after.backends.contains_key(load.model_profile.id)
            &&& backend.engine_id == Some(load.model_profile.engine_id)
            &&& backend.runtime_id == Some(selection.runtime_id)
            &&& backend.loading_lease_held
            &&& backend.generation == before.backends[load.model_profile.id].generation
            &&& backend.lifecycle == before.backends[load.model_profile.id].lifecycle
            &&& other != load.model_profile.id ==> (after.backends.contains_key(other)
                <==> before.backends.contains_key(other)) && after.backends[other]
                == before.backends[other]
            &&& after.sessions == before.sessions
            &&& after.shutting_down == before.shutting_down
        }),
{
    let bound = before.with_backend(
        load.model_profile.id,
        BackendView {
            engine_id: Some(load.model_profile.engine_id),
            runtime_id: Some(selection.runtime_id),
            loading_lease_held: true,
            ..before.backends[load.model_profile.id]
        },
    );
    lemma_warned_keeps(bound, selection.notices, now);
}

proof fn lemma_warned_keeps(state: ManagerView, warnings: Seq<Seq<char>>, now: i64)
    ensures
        state.warned(warnings, now) == (ManagerView {
            notices: state.warned(warnings, now).notices,
            ..state
        }),
    decreases warnings.len(),
{
    if warnings.len() > 0 {
        lemma_warned_keeps(
            state.noticed(now, RuntimeNoticeLevel::Warning, warnings[0]),
            warnings.skip(1),
            now,
        );
    }
}

/// A launch is recorded with the profile that it was made from, the runtime that ran and its digest, the
/// process, where it answers and when it began; and the environment of the parent only where it is
/// inherited.
pub proof fn law_launches_are_recorded(
    launch: SpawningBackend,
    process: ProcessView,
    parent: Seq<(Seq<char>, Seq<char>)>,
)
    ensures
        ({
            let record = launch.provenance(process, parent);
            let attempt = launch.attempt@;
            &&& record.content_sha256 == launch.launches.load@.model_profile.content_sha256
            &&& record.runtime_version == attempt.runtime_version
            &&& record.runtime_variant == attempt.runtime_variant
            &&& record.runtime_executable_sha256 == attempt.runtime_executable_sha256
            &&& record.effective == attempt.effective
            &&& record.process_id == process.process_id
            &&& record.process_start_identity == Some(process.supervisor_id)
            &&& record.launched_at_unix == process.launched_at_unix
            &&& process.endpoint is Some ==> record.private_backend_endpoint == process.endpoint->0
            &&& record.native_arguments == recorded_arguments(attempt.native_arguments, 0, None)
            &&& !attempt.inherits_parent_environment ==> record.native_environment
                == recorded_environment(own_variables(attempt.environment))
            &&& attempt.inherits_parent_environment ==> record.native_environment
                == recorded_environment(
                with_inherited(
                    own_variables(attempt.environment),
                    parent,
                    attempt.environment_remove,
                ),
            )
        }),
{
}

/// A load that has come to its end is too late exactly where its Model Profile is no longer loading under
/// its generation or all loads of its time were called off; and it says that it was cancelled where it was
/// called off or the profile is being stopped.
pub proof fn law_late_loads_say_why(end: FinishingLoad, state: ManagerView)
    ensures
        ({
            let load = end.started.launches.load@;
            let id = load.model_profile.id;
            let called_off = state.shutting_down || state.cancellation_epoch
                != load.cancellation_epoch;
            let backend = state.backends[id];
            &&& end.outdated(state) <==> !state.backends.contains_key(id) || backend.generation
                != load.generation || backend.lifecycle != BackendLifecycle::Loading || called_off
            &&& called_off ==> end.reason(state) == "model load was cancelled"@
            &&& state.backends.contains_key(id) && (backend.cancel_loading || backend.lifecycle
                == BackendLifecycle::Stopping) ==> end.reason(state) == "model load was cancelled"@
            &&& !called_off && !state.backends.contains_key(id) ==> end.reason(state)
                == "runtime generation changed while the model was loading"@
        }),
{
}

/// A load that is given up before its process runs leaves the files of its launch and of those still to
/// come, and no process; one that is abandoned later leaves its process and where it answers. Each is told
/// of its own generation and with the error.
pub proof fn law_given_up_loads_are_cleaned_up(
    preparing: PreparingLaunch,
    launch: SpawningBackend,
    started: Started,
    process: ProcessView,
    endpoint: Option<Seq<char>>,
    detail: Seq<char>,
    error: ErrorView,
)
    ensures
        ({
            let left = preparing.given_up(detail, error);
            &&& left.generation == preparing.launches.load@.generation
            &&& left.files == preparing.attempt@.temporary_files + files_of(
                views(preparing.launches.pending@),
            )
            &&& left.process is None && left.detail == detail && left.error == error
        }),
        ({
            let left = launch.given_up(detail, error);
            &&& left.generation == launch.launches.load@.generation
            &&& left.files == launch.attempt@.temporary_files + files_of(
                views(launch.launches.pending@),
            )
            &&& left.process is None && left.detail == detail && left.error == error
        }),
        ({
            let left = launch.abandoned(process, endpoint, detail, error);
            &&& left.generation == launch.launches.load@.generation
            &&& left.files == files_of(views(launch.launches.pending@))
            &&& left.process == Some(process) && left.forget == Some(endpoint)
            &&& left.detail == detail && left.error == error
        }),
        ({
            let left = started.abandoned(detail, error);
            &&& left.generation == started.launches.load@.generation
            &&& left.files == files_of(views(started.launches.pending@))
            &&& left.process == Some(started.process@) && left.forget == Some(
                Some(started.endpoint@),
            )
            &&& left.detail == detail && left.error == error
        }),
{
}

} // verus!
