use norted::backend::{
    EffectiveGenerationSettings, ManagedBackend, NormalizedSettings, ResolvedEntry,
    RuntimeSelectionSource,
};
use norted::engines::{EngineIdentity, EngineInstallation, EngineProbe, InstallationState};
use norted::lifecycle::{
    duration_seconds_i64, show_duration, BackendLifecycle, BackendLoadPhase, BackendLoadProgress,
    BackendResidency, LoadFraction, ModelRole, RuntimeError, RuntimeManagerOptions,
};
use norted::manager::load::{
    retry_context_capacity_message, AdmittedLoad, InvocationSetting, LaunchAttempt, Launching,
    PreparingLaunch, Readiness, ResolvingSettings, SelectedRuntime, SettingsOutcome,
    StartupObservation, Verification, VerifyingStartup, OBSERVATION_POLLS,
};
use norted::manager::{
    inference_load_failure, time_since, Admission, InferenceRoutingContext, ModelProfile,
    RouteClaim, RouteExisting, RouteStart, RuntimeManager,
};
use norted::supervisor::{EngineError, ProcessDescriptor, ProcessExit};
use norted::table::Table;

const PROFILE: &str = "fixture-profile";

fn empty_backend() -> ManagedBackend {
    ManagedBackend {
        lifecycle: BackendLifecycle::Loading,
        model_profile_id: PROFILE.to_owned(),
        model_id: "fixture".to_owned(),
        profile_role: ModelRole::Primary,
        residency: BackendResidency::Jit,
        engine_id: None,
        runtime_id: None,
        running: None,
        loading_process: None,
        loading_lease_held: false,
        cancel_loading: false,
        load_progress: None,
        failure: None,
        provenance: None,
        generation: 7,
        active_requests: 0,
        last_used_unix: 0,
        retiring: false,
    }
}

fn profile_named(id: &str, role: ModelRole) -> ModelProfile {
    ModelProfile {
        id: id.to_owned(),
        display_name: "Fixture".to_owned(),
        model_id: "fixture".to_owned(),
        engine_id: "fixture-engine".to_owned(),
        role,
        content_sha256: "aa".to_owned(),
    }
}

fn manager_fixture() -> RuntimeManager {
    RuntimeManager::new(RuntimeManagerOptions::default())
}

fn admitted(manager: &mut RuntimeManager, id: &str, role: ModelRole) -> AdmittedLoad {
    let epoch = manager.epoch();
    let residency = BackendResidency::Jit;
    let generation = manager
        .reserve_loading(id, "fixture", role, residency, epoch, 10)
        .expect("reservation");
    AdmittedLoad {
        model_profile: profile_named(id, role),
        model_id: "fixture".to_owned(),
        settings: Vec::new(),
        cancellation_epoch: epoch,
        generation,
        profile_role: role,
        residency,
    }
}

fn attempt(file: &str) -> LaunchAttempt {
    LaunchAttempt {
        temporary_files: vec![file.to_owned()],
        endpoint: Some("http://127.0.0.1:9000".to_owned()),
        preparation: None,
        runtime_version: "1.0".to_owned(),
        runtime_variant: "default".to_owned(),
        runtime_executable_sha256: "bb".to_owned(),
        effective: Table::new(),
        normalized_settings: settings(),
        native_arguments: vec!["--port".to_owned(), "9000".to_owned()],
        environment: Table::new(),
        environment_remove: Vec::new(),
        inherits_parent_environment: false,
    }
}

fn settings() -> NormalizedSettings {
    NormalizedSettings {
        entries: Table::new(),
        resolved: ResolvedEntry::Absent,
    }
}

fn process(supervisor_id: &str) -> ProcessDescriptor {
    ProcessDescriptor {
        supervisor_id: supervisor_id.to_owned(),
        process_id: 42,
        engine_id: "fixture-engine".to_owned(),
        runtime_id: "fixture-runtime".to_owned(),
        runtime_version: "1.0".to_owned(),
        runtime_variant: "default".to_owned(),
        runtime_executable_sha256: "bb".to_owned(),
        model_id: "fixture".to_owned(),
        endpoint: Some("http://127.0.0.1:9000".to_owned()),
        launched_at_unix: 11,
    }
}

fn phase_of(manager: &RuntimeManager, id: &str) -> Option<BackendLoadPhase> {
    manager
        .status()
        .backend(id)
        .and_then(|backend| backend.load_progress.as_ref().map(|progress| progress.phase))
}

fn until_launching(
    manager: &mut RuntimeManager,
    id: &str,
    role: ModelRole,
    attempts: Vec<LaunchAttempt>,
) -> Launching {
    let load = admitted(manager, id, role);
    let resolving = load.begin(manager, 10).ok().expect("begun");
    let selecting = resolving
        .resolved(manager, SettingsOutcome::Resolved, 10)
        .ok()
        .expect("settings");
    let checking = selecting
        .selected(
            manager,
            Ok(SelectedRuntime {
                runtime_id: "fixture-runtime".to_owned(),
                source: RuntimeSelectionSource::FormatDefault,
                notices: vec!["runtime is old".to_owned()],
            }),
            10,
        )
        .ok()
        .expect("selection");
    let acquiring = checking.checked(manager, Ok(()), 10).ok().expect("checked");
    let reserving = acquiring.acquired(manager, Ok(()), 10).ok().expect("lease");
    let preparing = reserving.reserved(manager, Ok(()), 10).ok().expect("address");
    let building = preparing.prepared(manager, Ok(()), 10).ok().expect("model");
    building.built(manager, Ok(attempts), 10).ok().expect("attempts")
}

fn until_verifying(manager: &mut RuntimeManager, launching: Launching, supervisor_id: &str) -> VerifyingStartup {
    let preparing: PreparingLaunch = launching.next(manager).ok().expect("launch");
    let spawning = preparing.prepared(manager, Ok(())).ok().expect("prepared");
    let subscribing = spawning
        .spawned(manager, Ok(process(supervisor_id)), &Vec::new())
        .ok()
        .expect("spawned");
    let waiting = subscribing.subscribed(manager, Ok(()), 5_000).ok().expect("subscribed");
    let waiting = waiting.poll(&None, 100, 5_000).ok().expect("alive");
    match waiting.health(manager, Ok(true)).ok().expect("healthy") {
        Readiness::Ready(verifying) => verifying,
        Readiness::Waiting(_) => panic!("a healthy backend is ready"),
    }
}

fn run(manager: &mut RuntimeManager, id: &str, role: ModelRole, supervisor_id: &str) {
    let launching = until_launching(manager, id, role, vec![attempt("launch.json")]);
    let verifying = until_verifying(manager, launching, supervisor_id);
    let proven = match verifying
        .observed(manager, Ok(StartupObservation::Ready(settings())), false)
        .ok()
        .expect("observed")
    {
        Verification::Proven(proven) => proven,
        _ => panic!("the startup is proven"),
    };
    let finishing = proven
        .measured(Ok(EffectiveGenerationSettings {
            temperature: "0.7".to_owned(),
            top_p: "0.9".to_owned(),
        }))
        .ok()
        .expect("measured");
    let status = finishing.finish(manager, 12).ok().expect("finished");
    assert_eq!(
        status.backend(id).expect("backend").lifecycle,
        BackendLifecycle::Running
    );
}

#[test]
fn apply_load_progress_updates_the_current_generation() {
    let mut backend = empty_backend();
    backend.apply_load_progress(
        7,
        BackendLoadProgress::indeterminate(BackendLoadPhase::SelectingRuntime),
    );
    let progress = backend.load_progress.expect("progress was set");
    assert_eq!(progress.phase, BackendLoadPhase::SelectingRuntime);
    assert_eq!(progress.fraction, None);
}

#[test]
fn an_old_load_generation_cannot_overwrite_newer_load_progress() {
    let mut backend = empty_backend();
    backend.apply_load_progress(
        7,
        BackendLoadProgress::indeterminate(BackendLoadPhase::LoadingModel),
    );
    backend.generation = 8;
    backend.apply_load_progress(
        7,
        BackendLoadProgress::indeterminate(BackendLoadPhase::SpawningBackend),
    );
    let progress = backend.load_progress.expect("progress is unchanged");
    assert_eq!(
        progress.phase,
        BackendLoadPhase::LoadingModel,
        "stale generation must not overwrite newer progress"
    );
}

#[test]
fn apply_load_progress_is_ignored_once_loading_is_no_longer_active() {
    let mut backend = empty_backend();
    backend.lifecycle = BackendLifecycle::Running;
    backend.apply_load_progress(
        7,
        BackendLoadProgress::indeterminate(BackendLoadPhase::VerifyingStartup),
    );
    assert!(
        backend.load_progress.is_none(),
        "progress is not attached once the backend is Running"
    );

    let mut backend = empty_backend();
    backend.lifecycle = BackendLifecycle::Failed;
    backend.apply_load_progress(
        7,
        BackendLoadProgress::indeterminate(BackendLoadPhase::VerifyingStartup),
    );
    assert!(
        backend.load_progress.is_none(),
        "progress is not attached once the backend is Failed"
    );
}

#[test]
fn apply_load_progress_sanitizes_untrustworthy_adapter_values() {
    let mut backend = empty_backend();
    backend.apply_load_progress(
        7,
        BackendLoadProgress {
            phase: BackendLoadPhase::LoadingModel,
            fraction: Some(LoadFraction::Reported(1.5f32.to_bits())),
            current: Some(300),
            total: Some(200),
            message: None,
        },
    );
    let progress = backend.load_progress.expect("progress was sanitized");
    assert_eq!(progress.fraction, None);
    assert_eq!(progress.current, None);
    assert_eq!(progress.total, None);
}

#[test]
fn pre_launch_preparation_precedes_the_spawning_phase() {
    let mut manager = manager_fixture();
    let launching = until_launching(
        &mut manager,
        PROFILE,
        ModelRole::Primary,
        vec![attempt("first.json")],
    );
    let preparing = launching.next(&mut manager).ok().expect("adapter preparation");
    assert_eq!(
        phase_of(&manager, PROFILE),
        Some(BackendLoadPhase::PreparingLaunch),
        "SpawningBackend must not be published during adapter preparation"
    );
    let _ = preparing.prepared(&mut manager, Ok(())).ok().expect("spawning phase");
    assert_eq!(
        phase_of(&manager, PROFILE),
        Some(BackendLoadPhase::SpawningBackend)
    );

    let mut manager = manager_fixture();
    let launching = until_launching(
        &mut manager,
        PROFILE,
        ModelRole::Primary,
        vec![attempt("first.json")],
    );
    let preparing = launching.next(&mut manager).ok().expect("adapter preparation");
    let _ = manager.begin_shutdown();
    let teardown = preparing.prepared(&mut manager, Ok(())).err();
    assert!(
        teardown.is_some_and(|teardown| teardown.process.is_none()
            && teardown.files == ["first.json"]
            && teardown.detail == "model load was cancelled"),
        "cancellation during final preparation must prevent process creation"
    );
}

#[test]
fn context_capacity_retry_names_the_attempted_kv_mode() {
    let message = retry_context_capacity_message("fp8", 180_000, 200_000);
    assert_eq!(
        message,
        "KV mode fp8 served 180000 of the required 200000 context tokens; retrying with the next configured automatic KV mode"
    );
    assert!(!message.contains("next KV mode: fp8"));
}

#[test]
fn admission_returns_after_loading_generation_is_reserved() {
    let mut manager = manager_fixture();
    let admission = manager
        .admit_load(
            true,
            PROFILE,
            &Ok(Some(profile_named(PROFILE, ModelRole::Primary))),
            true,
            &None,
            true,
        )
        .ok()
        .expect("load admission");
    assert!(matches!(admission, Admission::Reserve));
    let load = admitted(&mut manager, PROFILE, ModelRole::Primary);
    let status = manager.status();
    let backend = status.backend(PROFILE).expect("admitted backend");
    assert_eq!(backend.lifecycle, BackendLifecycle::Loading);
    assert_eq!(backend.model_profile_id, PROFILE);
    assert_eq!(backend.model_id, "fixture");
    assert_eq!(backend.generation, load.generation);
    assert_eq!(manager.current_lifecycle(), BackendLifecycle::Loading);
    assert!(status.loading_backend().is_some());
}

#[test]
fn simultaneous_second_admission_is_busy_instead_of_queued() {
    let mut manager = manager_fixture();
    let _first = admitted(&mut manager, PROFILE, ModelRole::Primary);
    for operation_free in [true, false] {
        let error = manager
            .admit_load(
                operation_free,
                PROFILE,
                &Ok(Some(profile_named(PROFILE, ModelRole::Primary))),
                true,
                &None,
                true,
            )
            .err()
            .expect("second admission must be rejected");
        assert!(matches!(
            error,
            RuntimeError::Busy(BackendLifecycle::Loading)
        ));
        assert_eq!(error.message(), "the backend is currently Loading");
    }
}

#[test]
fn unload_epoch_change_prevents_a_stale_admission_reservation() {
    let mut manager = manager_fixture();
    let stale_epoch = manager.epoch() + 1;
    let error = manager
        .reserve_loading(
            PROFILE,
            "fixture",
            ModelRole::Primary,
            BackendResidency::Jit,
            stale_epoch,
            22,
        )
        .err()
        .expect("stale admission epoch");
    assert!(error.message().contains("cancelled before admission"));
    assert!(manager.status().backends.is_empty());
}

#[test]
fn admitted_background_failure_is_authoritative() {
    let mut manager = manager_fixture();
    let load = admitted(&mut manager, PROFILE, ModelRole::Primary);
    let generation = load.generation;
    let resolving: ResolvingSettings = load.begin(&mut manager, 10).ok().expect("begun");
    let error = resolving
        .resolved(&mut manager, SettingsOutcome::EngineMissing, 11)
        .err()
        .expect("missing engine");
    assert!(matches!(error, RuntimeError::EngineUnavailable(_)));
    let status = manager.status();
    let failed = status.backend(PROFILE).expect("failed backend");
    assert_eq!(failed.lifecycle, BackendLifecycle::Failed);
    assert_eq!(failed.generation, generation);
    assert!(failed
        .failure
        .as_deref()
        .is_some_and(|failure| failure.contains("compatible installed engine")));
    assert_eq!(
        failed.failure.as_deref(),
        Some(
            "failed while resolving settings: no compatible installed engine is available: Model Profile `fixture-profile` binds unregistered engine `fixture-engine`"
        )
    );
}

#[test]
fn unload_cancels_an_admitted_background_load() {
    let mut manager = manager_fixture();
    let load = admitted(&mut manager, PROFILE, ModelRole::Primary);
    manager.cancel_loading(PROFILE, 20).expect("load to cancel");
    assert_eq!(
        manager.status().backend(PROFILE).expect("backend").lifecycle,
        BackendLifecycle::Stopping
    );
    let resolving = load.begin(&mut manager, 21).ok().expect("begun");
    let selecting = resolving
        .resolved(&mut manager, SettingsOutcome::Resolved, 21)
        .ok()
        .expect("settings");
    let checking = selecting
        .selected(
            &mut manager,
            Ok(SelectedRuntime {
                runtime_id: "fixture-runtime".to_owned(),
                source: RuntimeSelectionSource::Fallback,
                notices: Vec::new(),
            }),
            21,
        )
        .ok()
        .expect("selection");
    let acquiring = checking.checked(&mut manager, Ok(()), 21).ok().expect("checked");
    let error = acquiring.acquired(&mut manager, Ok(()), 21).err().expect("called off");
    assert_eq!(error.message(), "runtime operation failed: model load was cancelled");
    let stopped = manager.finish_stop(PROFILE, Ok(()), 22).ok().expect("unload");
    assert!(stopped.backends.is_empty());
    assert_eq!(
        stopped.recent_events.last().expect("notice").message,
        "Model Profile fixture-profile unloaded"
    );
}

#[test]
fn shutdown_cleans_up_an_admitted_background_load() {
    let mut manager = manager_fixture();
    let load = admitted(&mut manager, PROFILE, ModelRole::Primary);
    assert_eq!(manager.begin_shutdown(), [PROFILE]);
    assert!(load.begin(&mut manager, 21).is_err());
    assert!(matches!(
        manager.admit_load(
            true,
            PROFILE,
            &Ok(Some(profile_named(PROFILE, ModelRole::Primary))),
            true,
            &None,
            true,
        ),
        Err(RuntimeError::ShuttingDown)
    ));
    manager.finish_stop(PROFILE, Ok(()), 22).ok().expect("stopped");
    assert!(manager.status().backends.is_empty());
}

#[test]
fn coalesced_hash_progress_from_an_old_generation_is_ignored() {
    let mut manager = manager_fixture();
    let first = admitted(&mut manager, PROFILE, ModelRole::Primary);
    manager.fail_loading(first.generation, "stopped", &None, 11);
    manager.finish_stop(PROFILE, Ok(()), 12).ok().expect("stopped");
    let second = admitted(&mut manager, PROFILE, ModelRole::Primary);
    manager.set_load_progress(
        second.generation,
        BackendLoadProgress::with_message(
            BackendLoadPhase::SelectingRuntime,
            "newer load".to_owned(),
        ),
    );
    manager.set_load_progress(
        first.generation,
        BackendLoadProgress {
            phase: BackendLoadPhase::PreparingModel,
            fraction: None,
            current: Some(64),
            total: Some(128),
            message: Some("stale package hash".to_owned()),
        },
    );
    let status = manager.status();
    let progress = status
        .backend(PROFILE)
        .expect("backend")
        .load_progress
        .as_ref()
        .expect("new load progress");
    assert_eq!(progress.phase, BackendLoadPhase::SelectingRuntime);
    assert_eq!(progress.message.as_deref(), Some("newer load"));
}

#[test]
fn measured_progress_gets_its_fraction_from_the_count() {
    let progress = BackendLoadProgress {
        phase: BackendLoadPhase::LoadingModel,
        fraction: None,
        current: Some(50),
        total: Some(200),
        message: Some("  loading ".to_owned()),
    }
    .sanitized();
    assert_eq!(progress.fraction, Some(LoadFraction::Counted(50, 200)));
    assert_eq!((progress.current, progress.total), (Some(50), Some(200)));
    assert!(LoadFraction::Reported(0.5f32.to_bits()).is_trustworthy());
    assert!(LoadFraction::Reported(1.0f32.to_bits()).is_trustworthy());
    assert!(!LoadFraction::Reported((-0.25f32).to_bits()).is_trustworthy());
    assert!(!LoadFraction::Reported(f32::NAN.to_bits()).is_trustworthy());
    assert!(!LoadFraction::Reported(f32::INFINITY.to_bits()).is_trustworthy());
}

#[test]
fn a_finished_load_serves_requests() {
    let mut manager = manager_fixture();
    run(&mut manager, PROFILE, ModelRole::Primary, "one");
    let target = manager.acquire_target(PROFILE, 30).ok().expect("target");
    assert_eq!(target.endpoint, "http://127.0.0.1:9000");
    assert_eq!(target.engine_id.as_deref(), Some("fixture-engine"));
    assert_eq!(target.generation_settings.temperature, "0.7");
    assert_eq!(
        manager.status().backend(PROFILE).expect("backend").active_request_count,
        1
    );
    assert!(!manager.is_drained(PROFILE));
    manager.release_target(PROFILE, target.generation, 31);
    let status = manager.status();
    let backend = status.backend(PROFILE).expect("backend");
    assert_eq!(backend.active_request_count, 0);
    assert_eq!(backend.last_used_unix, 31);
    assert!(manager.is_drained(PROFILE));
    assert_eq!(status.running_backend_count, 1);

    manager.begin_stop(PROFILE, 32).expect("process to end");
    assert!(matches!(
        manager.acquire_target(PROFILE, 33),
        Err(RuntimeError::ModelProfileNotLoaded(id)) if id == PROFILE
    ));
    let error = manager
        .finish_stop(PROFILE, Err("still alive".to_owned()), 34)
        .err()
        .expect("not stopped");
    assert!(error.message().contains("still alive"));
    assert!(matches!(
        manager.acquire_target(PROFILE, 35),
        Err(RuntimeError::BackendCrashed(detail)) if detail.contains("still alive")
    ));
}

#[test]
fn a_running_backend_is_reused_and_pinned() {
    let mut manager = manager_fixture();
    run(&mut manager, PROFILE, ModelRole::Primary, "one");
    let lookup = Ok(Some(profile_named(PROFILE, ModelRole::Primary)));
    let admission = manager.admit_load(true, PROFILE, &lookup, true, &None, true);
    match admission.ok().expect("admission") {
        Admission::Reused(status) => assert_eq!(
            status.backend(PROFILE).expect("backend").residency,
            BackendResidency::Pinned
        ),
        _ => panic!("the running backend serves"),
    }
    let admission = manager.admit_load(true, PROFILE, &lookup, true, &None, false);
    assert!(matches!(admission, Ok(Admission::StopFirst)));
    let mut changed = profile_named(PROFILE, ModelRole::Primary);
    changed.content_sha256 = "cc".to_owned();
    let admission = manager.admit_load(true, PROFILE, &Ok(Some(changed)), true, &None, true);
    assert!(matches!(admission, Ok(Admission::StopFirst)));
}

#[test]
fn refused_loads_say_why() {
    let mut manager = manager_fixture();
    let lookup = Ok(Some(profile_named(PROFILE, ModelRole::Primary)));
    let refused = manager.admit_load(true, PROFILE, &Err("broken".to_owned()), true, &None, true);
    assert!(matches!(refused, Err(RuntimeError::Operation(detail)) if detail == "broken"));
    let refused = manager.admit_load(true, PROFILE, &Ok(None), true, &None, true);
    assert!(matches!(refused, Err(RuntimeError::ModelProfileNotFound(id)) if id == PROFILE));
    let refused = manager.admit_load(true, PROFILE, &lookup, false, &None, true);
    assert!(matches!(
        refused,
        Err(RuntimeError::BoundModelMissing { profile_id, model_id })
            if profile_id == PROFILE && model_id == "fixture"
    ));
    let refused = manager.admit_load(false, PROFILE, &lookup, true, &None, true);
    assert!(matches!(refused, Err(RuntimeError::Busy(BackendLifecycle::Stopped))));
}

#[test]
fn settings_of_other_engines_are_refused() {
    let mut manager = manager_fixture();
    let mut load = admitted(&mut manager, PROFILE, ModelRole::Primary);
    load.settings = vec![
        InvocationSetting { id: "fixture.a".to_owned(), applies: true },
        InvocationSetting { id: "other.b".to_owned(), applies: false },
    ];
    let resolving = load.begin(&mut manager, 10).ok().expect("begun");
    let error = resolving
        .resolved(&mut manager, SettingsOutcome::Resolved, 11)
        .err()
        .expect("misplaced setting");
    assert_eq!(
        error.message(),
        "runtime operation failed: invocation setting `other.b` does not apply to selected engine `fixture-engine`"
    );
}

#[test]
fn every_step_of_a_load_can_fail() {
    let outcomes = [
        SettingsOutcome::Unreadable("unreadable".to_owned()),
        SettingsOutcome::Unsupported("unsupported".to_owned()),
        SettingsOutcome::Unresolved("unresolved".to_owned()),
    ];
    for outcome in outcomes {
        let mut manager = manager_fixture();
        let load = admitted(&mut manager, PROFILE, ModelRole::Primary);
        let resolving = load.begin(&mut manager, 10).ok().expect("begun");
        let error = resolving.resolved(&mut manager, outcome, 11).err().expect("refused");
        assert!(matches!(
            error,
            RuntimeError::Operation(_) | RuntimeError::Incompatible { .. }
        ));
        assert_eq!(
            manager.status().backend(PROFILE).expect("backend").lifecycle,
            BackendLifecycle::Failed
        );
    }

    let mut manager = manager_fixture();
    let launching = until_launching(
        &mut manager,
        PROFILE,
        ModelRole::Primary,
        vec![attempt("first.json"), attempt("second.json")],
    );
    let preparing = launching.next(&mut manager).ok().expect("launch");
    let teardown = preparing
        .prepared(&mut manager, Err("no permission".to_owned()))
        .err()
        .expect("not prepared");
    assert_eq!(teardown.files, ["first.json", "second.json"]);
    let error = teardown.finish(&mut manager, 20);
    assert!(matches!(error, RuntimeError::StartupFailed(detail) if detail == "no permission"));
    assert_eq!(
        manager.status().backend(PROFILE).expect("backend").failure.as_deref(),
        Some("failed while preparing the launch: no permission")
    );
}

#[test]
fn a_backend_that_dies_or_is_late_fails_to_start() {
    for late in [false, true] {
        let mut manager = manager_fixture();
        let launching = until_launching(
            &mut manager,
            PROFILE,
            ModelRole::Primary,
            vec![attempt("first.json")],
        );
        let preparing = launching.next(&mut manager).ok().expect("launch");
        let spawning = preparing.prepared(&mut manager, Ok(())).ok().expect("prepared");
        let subscribing = spawning
            .spawned(&mut manager, Ok(process("one")), &Vec::new())
            .ok()
            .expect("spawned");
        let waiting = subscribing.subscribed(&mut manager, Ok(()), 5_000).ok().expect("subscribed");
        let exit = ProcessExit {
            process_id: 42,
            success: false,
            code: Some(3),
            expected: false,
            detail: "exit status: 3".to_owned(),
            stderr_tail: vec!["out of memory".to_owned()],
        };
        let (exit, now): (Option<ProcessExit>, u64) =
            if late { (None, 5_000) } else { (Some(exit), 100) };
        let teardown = waiting.poll(&exit, now, 5_000).err().expect("not ready");
        let error = teardown.ended(true).finish(&mut manager, 20);
        if late {
            assert!(matches!(error, RuntimeError::StartupTimedOut(5_000)));
            assert_eq!(error.message(), "engine startup timed out after 5s");
        } else {
            assert!(matches!(error, RuntimeError::StartupFailed(ref detail)
                if detail.contains("out of memory")));
        }
    }
}

#[test]
fn the_next_kv_mode_is_tried_when_the_context_is_too_small() {
    let mut manager = manager_fixture();
    let launching = until_launching(
        &mut manager,
        PROFILE,
        ModelRole::Primary,
        vec![attempt("first.json"), attempt("second.json")],
    );
    let verifying = until_verifying(&mut manager, launching, "one");
    let observation = StartupObservation::RetryContextCapacity {
        kv_mode: "fp8".to_owned(),
        observed_context: 180_000,
        minimum_context: 200_000,
    };
    let retrying = match verifying.observed(&mut manager, Ok(observation), false).ok().expect("observed") {
        Verification::Retry(retrying) => retrying,
        _ => panic!("the context is too small"),
    };
    let retrying = retrying.ended(Ok(())).ok().expect("ended");
    let launching = retrying.retry(&mut manager, 20).ok().expect("another launch");
    assert_eq!(launching.pending.len(), 1);
    assert_eq!(launching.tried[0].kv_mode, "fp8");
    let verifying = until_verifying(&mut manager, launching, "two");
    let observation = StartupObservation::RetryContextCapacity {
        kv_mode: "q8".to_owned(),
        observed_context: 190_000,
        minimum_context: 200_000,
    };
    let retrying = match verifying.observed(&mut manager, Ok(observation), false).ok().expect("observed") {
        Verification::Retry(retrying) => retrying,
        _ => panic!("the context is too small"),
    };
    let error = retrying
        .ended(Ok(()))
        .ok()
        .expect("ended")
        .retry(&mut manager, 21)
        .err()
        .expect("nothing left to try");
    assert!(error.message().contains("200000"));
    assert!(error.message().contains("q8"));
}

#[test]
fn a_startup_that_stays_unobservable_is_given_up() {
    let mut manager = manager_fixture();
    let launching = until_launching(
        &mut manager,
        PROFILE,
        ModelRole::Primary,
        vec![attempt("first.json")],
    );
    let mut verifying = until_verifying(&mut manager, launching, "one");
    let mut polls: u32 = 0;
    let teardown = loop {
        match verifying.observed(
            &mut manager,
            Err(EngineError::BackendUnavailable("no log line".to_owned())),
            false,
        ) {
            Ok(Verification::Unobservable(next)) => {
                polls += 1;
                verifying = next;
            },
            Ok(_) => panic!("nothing was observed"),
            Err(teardown) => break teardown,
        }
    };
    assert!(teardown.process.is_some());
    assert_eq!(polls, OBSERVATION_POLLS as u32);
}

#[test]
fn an_unexpected_exit_is_recorded_for_its_own_process_only() {
    let mut manager = manager_fixture();
    run(&mut manager, PROFILE, ModelRole::Primary, "one");
    let generation = manager.status().backend(PROFILE).expect("backend").generation;
    let exit = ProcessExit {
        process_id: 42,
        success: false,
        code: Some(9),
        expected: false,
        detail: "exit status: 9".to_owned(),
        stderr_tail: Vec::new(),
    };
    assert!(manager
        .handle_unexpected_exit(PROFILE, generation, &process("two"), &exit, 40)
        .is_none());
    assert!(manager
        .handle_unexpected_exit(PROFILE, generation + 1, &process("one"), &exit, 40)
        .is_none());
    assert!(manager
        .handle_unexpected_exit(PROFILE, generation, &process("one"), &exit, 41)
        .is_some());
    let status = manager.status();
    let backend = status.backend(PROFILE).expect("backend");
    assert_eq!(backend.lifecycle, BackendLifecycle::Failed);
    assert!(backend.failure.as_deref().is_some_and(|failure| failure.contains("exit status: 9")));
}

#[test]
fn sessions_hand_their_primary_over() {
    let mut manager = manager_fixture();
    run(&mut manager, "first", ModelRole::Primary, "one");
    let routing = |session: &str| InferenceRoutingContext {
        session_id: session.to_owned(),
        role: None,
    };
    let lookup = Ok(Some(profile_named("first", ModelRole::Primary)));
    assert!(matches!(
        manager.inference_start("first", &lookup, &routing("a"), 50),
        Ok(RouteStart::Exclusive)
    ));
    assert!(matches!(
        manager.inference_claim("first", "a", ModelRole::Primary, 50),
        RouteClaim::Reclaim | RouteClaim::Proceed
    ));
    assert!(matches!(
        manager.inference_claim("first", "b", ModelRole::Primary, 51),
        RouteClaim::Reclaim | RouteClaim::Proceed
    ));
    assert!(matches!(
        manager.inference_existing("first", "aa", 52),
        Ok(RouteExisting::Ready(_))
    ));
    assert!(manager
        .try_fast_target("first", "aa", ModelRole::Primary, "a", 53)
        .is_some());
    assert!(manager
        .try_fast_target("first", "other hash", ModelRole::Primary, "a", 53)
        .is_none());
    assert_eq!(
        manager.status().backend("first").expect("backend").primary_lease_count,
        2
    );
    assert!(!matches!(
        manager.inference_claim("second", "a", ModelRole::Primary, 54),
        RouteClaim::StopPrevious(_)
    ));
    assert!(matches!(
        manager.inference_claim("second", "b", ModelRole::Primary, 55),
        RouteClaim::StopPrevious(previous) if previous == "first"
    ));
}

#[test]
fn requests_are_refused_before_anything_is_loaded() {
    let mut options = RuntimeManagerOptions::default();
    options.jit_enabled = false;
    let mut manager = RuntimeManager::new(options);
    let profile = profile_named(PROFILE, ModelRole::Primary);
    assert!(matches!(
        manager.inference_existing(PROFILE, "aa", 50),
        Err(RuntimeError::ModelProfileNotLoaded(id)) if id == PROFILE
    ));
    let mut manager = manager_fixture();
    assert!(matches!(
        manager.inference_existing(PROFILE, "aa", 50),
        Ok(RouteExisting::Load)
    ));
    assert!(manager.inference_load(PROFILE, &profile, true).is_ok());
    assert!(matches!(
        manager.inference_load(PROFILE, &profile, false),
        Err(RuntimeError::BoundModelMissing { .. })
    ));
    let auxiliary = inference_load_failure(
        PROFILE,
        ModelRole::Auxiliary,
        RuntimeError::StartupFailed("no memory".to_owned()),
    );
    assert_eq!(
        auxiliary.message(),
        "auxiliary Model Profile `fixture-profile` could not be loaded without evicting a leased primary: engine failed during startup: no memory"
    );
    let primary = inference_load_failure(
        PROFILE,
        ModelRole::Primary,
        RuntimeError::StartupFailed("no memory".to_owned()),
    );
    assert!(matches!(primary, RuntimeError::StartupFailed(_)));
}

#[test]
fn idle_backends_are_reclaimed_after_their_time() {
    let mut manager = manager_fixture();
    run(&mut manager, "aux", ModelRole::Auxiliary, "one");
    run(&mut manager, "main", ModelRole::Primary, "two");
    assert_eq!(manager.reclaim_idle(&None, 10 + 299), [] as [&str; 0]);
    assert_eq!(manager.reclaim_idle(&None, 10 + 300), ["aux"]);
}

#[test]
fn notices_are_bounded() {
    let mut manager = manager_fixture();
    for round in 0..100i64 {
        let load = admitted(&mut manager, PROFILE, ModelRole::Primary);
        manager.fail_loading(load.generation, "stopped", &None, round);
        manager.finish_stop(PROFILE, Ok(()), round).ok().expect("stopped");
    }
    let status = manager.status();
    assert_eq!(status.recent_events.len(), 64);
    assert_eq!(
        status.recent_events.last().expect("notice").message,
        "Model Profile fixture-profile unloaded"
    );
}

#[test]
fn probes_are_shown_by_engine() {
    let mut manager = manager_fixture();
    let identity = |id: &str| EngineIdentity {
        id: id.to_owned(),
        display_name: id.to_owned(),
    };
    manager.record_engine_probe(
        identity("b"),
        Ok(EngineProbe {
            installation: InstallationState::Installed {
                installation: EngineInstallation {
                    binary_path: "/opt/b".to_owned(),
                    version: None,
                    revision: None,
                },
            },
            healthy: true,
            detail: "ready".to_owned(),
        }),
    );
    manager.record_engine_probe(identity("a"), Err("no answer".to_owned()));
    manager.set_public_endpoint("http://127.0.0.1:8080".to_owned());
    let status = manager.status();
    assert_eq!(status.public_endpoint.as_deref(), Some("http://127.0.0.1:8080"));
    assert_eq!(status.installed_engine_count, 1);
    assert_eq!(status.engines.len(), 2);
    assert_eq!(status.engines[0].identity.id, "a");
    assert!(!status.engines[0].probe.healthy);
}

#[test]
fn times_and_durations() {
    assert_eq!(time_since(10, 4), 6);
    assert_eq!(time_since(i64::MAX, -1), i64::MAX);
    assert_eq!(time_since(i64::MIN, 1), i64::MIN);
    assert_eq!(duration_seconds_i64(3_999), 3);
    assert_eq!(show_duration(300_000), "300s");
    assert_eq!(show_duration(1_500), "1.5s");
    assert_eq!(show_duration(250), "250ms");
}

#[test]
fn phases_have_labels() {
    assert_eq!(BackendLifecycle::Stopping.name(), "Stopping");
    assert!(BackendLifecycle::Loading.is_loading());
    assert!(!BackendLifecycle::Running.is_loading());
    assert_eq!(BackendLoadPhase::SpawningBackend.label(), "Spawning backend");
    assert_eq!(BackendLoadPhase::PreparingLaunch.failure_label(), "preparing the launch");
}

#[test]
fn the_newest_backend_has_the_highest_generation() {
    let mut manager = manager_fixture();
    run(&mut manager, "zeta", ModelRole::Primary, "one");
    run(&mut manager, "alpha", ModelRole::Auxiliary, "two");
    let status = manager.status();
    let newest = status.newest_backend().expect("backend");
    assert!(status.backends.iter().all(|backend| backend.generation <= newest.generation));
    assert!(status.loading_backend().is_none());
}

#[test]
fn observed_progress_is_published_once() {
    let mut manager = manager_fixture();
    let launching = until_launching(
        &mut manager,
        PROFILE,
        ModelRole::Primary,
        vec![attempt("first.json")],
    );
    let preparing = launching.next(&mut manager).ok().expect("launch");
    let spawning = preparing.prepared(&mut manager, Ok(())).ok().expect("prepared");
    let subscribing = spawning
        .spawned(&mut manager, Ok(process("one")), &Vec::new())
        .ok()
        .expect("spawned");
    let waiting = subscribing.subscribed(&mut manager, Ok(()), 5_000).ok().expect("subscribed");
    let observed = || {
        Some(BackendLoadProgress {
            phase: BackendLoadPhase::LoadingModel,
            fraction: Some(LoadFraction::Reported(2.0f32.to_bits())),
            current: None,
            total: None,
            message: Some("weights".to_owned()),
        })
    };
    let waiting = waiting.observe_progress(&mut manager, observed());
    assert_eq!(phase_of(&manager, PROFILE), Some(BackendLoadPhase::LoadingModel));
    let waiting = waiting.observe_progress(&mut manager, observed());
    assert!(waiting.published.is_some_and(|published| published.fraction.is_none()));
}

#[test]
fn an_unreadable_log_ends_the_startup() {
    let mut manager = manager_fixture();
    let launching = until_launching(
        &mut manager,
        PROFILE,
        ModelRole::Primary,
        vec![attempt("first.json")],
    );
    let verifying = until_verifying(&mut manager, launching, "one");
    let teardown = verifying.tail_unreadable("no such process");
    assert!(teardown.detail.contains("no such process"));
    let error = teardown.ended(false).finish(&mut manager, 20);
    assert!(matches!(error, RuntimeError::StartupFailed(_) | RuntimeError::Operation(_)));
    assert_eq!(
        manager.status().backend(PROFILE).expect("backend").lifecycle,
        BackendLifecycle::Failed
    );
}

#[test]
fn an_unload_during_preparation_prevents_the_process() {
    for before_preparation in [true, false] {
        let mut manager = manager_fixture();
        let launching = until_launching(
            &mut manager,
            PROFILE,
            ModelRole::Primary,
            vec![attempt("first.json"), attempt("second.json")],
        );
        let teardown = if before_preparation {
            let _ = manager.cancel_loading(PROFILE, 20).expect("load to cancel");
            launching.next(&mut manager).err().expect("called off")
        } else {
            let preparing = launching.next(&mut manager).ok().expect("adapter preparation");
            let _ = manager.cancel_loading(PROFILE, 20).expect("load to cancel");
            preparing.prepared(&mut manager, Ok(())).err().expect("called off")
        };
        assert!(teardown.process.is_none());
        assert_eq!(teardown.files, ["first.json", "second.json"]);
        assert_eq!(teardown.detail, "model load was cancelled");
        assert!(matches!(
            &teardown.error,
            RuntimeError::Operation(detail) if detail == "model load was cancelled"
        ));
        assert_eq!(phase_of(&manager, PROFILE), None);
        let _ = teardown.finish(&mut manager, 21);
        let status = manager.status();
        let ended = status.backend(PROFILE).expect("backend");
        assert_eq!(ended.lifecycle, BackendLifecycle::Failed);
        assert_eq!(ended.failure.as_deref(), Some("model load was cancelled"));
        let _ = manager.begin_stop(PROFILE, 22).expect("backend to stop");
        let stopped = manager.finish_stop(PROFILE, Ok(()), 23).ok().expect("unload");
        assert!(stopped.backends.is_empty());
    }
}

#[test]
fn later_loads_have_higher_generations() {
    let mut manager = manager_fixture();
    let first = admitted(&mut manager, PROFILE, ModelRole::Primary);
    manager.set_load_progress(
        first.generation,
        BackendLoadProgress::indeterminate(BackendLoadPhase::LoadingModel),
    );
    let second = admitted(&mut manager, "other-profile", ModelRole::Auxiliary);
    assert_eq!(second.generation, first.generation + 1);
    let status = manager.status();
    let shown = status.backend("other-profile").expect("backend");
    assert_eq!(shown.generation, second.generation);
    assert_eq!(shown.lifecycle, BackendLifecycle::Loading);
    assert_eq!(shown.failure, None);
    let progress = shown.load_progress.as_ref().expect("progress");
    assert!(progress.same_as(&BackendLoadProgress::indeterminate(BackendLoadPhase::Starting)));
    assert_eq!(phase_of(&manager, PROFILE), Some(BackendLoadPhase::LoadingModel));

    manager.fail_loading(second.generation, "no memory", &None, 30);
    assert_eq!(phase_of(&manager, PROFILE), Some(BackendLoadPhase::LoadingModel));
    let status = manager.status();
    let failed = status.backend("other-profile").expect("backend");
    assert_eq!(failed.lifecycle, BackendLifecycle::Failed);
    assert_eq!(
        failed.failure.as_deref(),
        Some("failed while starting the model load: no memory")
    );
    let third = admitted(&mut manager, "other-profile", ModelRole::Auxiliary);
    assert_eq!(third.generation, second.generation + 1);
}

#[test]
fn an_admitted_load_keeps_other_profiles_out() {
    let mut manager = manager_fixture();
    let first = admitted(&mut manager, PROFILE, ModelRole::Primary);
    let refused = manager.admit_load(
        false,
        "other-profile",
        &Ok(Some(profile_named("other-profile", ModelRole::Primary))),
        true,
        &None,
        true,
    );
    assert!(matches!(
        refused,
        Err(RuntimeError::Busy(BackendLifecycle::Loading))
    ));
    let status = manager.status();
    assert_eq!(status.backends.len(), 1);
    assert_eq!(status.backends[0].generation, first.generation);
    let _ = manager.cancel_loading(PROFILE, 20).expect("load to cancel");
    let refused = manager.admit_load(
        false,
        "other-profile",
        &Ok(Some(profile_named("other-profile", ModelRole::Primary))),
        true,
        &None,
        true,
    );
    assert!(matches!(
        refused,
        Err(RuntimeError::Busy(BackendLifecycle::Stopping))
    ));
}

#[test]
fn shutdown_leaves_no_backend() {
    let mut manager = manager_fixture();
    run(&mut manager, PROFILE, ModelRole::Primary, "one");
    let load = admitted(&mut manager, "other-profile", ModelRole::Auxiliary);
    let profiles = manager.begin_shutdown();
    assert_eq!(profiles, [PROFILE, "other-profile"]);
    for profile in &profiles {
        let _ = manager.cancel_loading(profile, 40);
    }
    assert!(load.begin(&mut manager, 41).is_err());
    for profile in &profiles {
        let _ = manager.begin_stop(profile, 42).expect("backend to stop");
        let _ = manager.finish_stop(profile, Ok(()), 43).ok().expect("stopped");
    }
    assert!(manager.status().backends.is_empty());
    let refused = manager.admit_load(
        true,
        PROFILE,
        &Ok(Some(profile_named(PROFILE, ModelRole::Primary))),
        true,
        &None,
        true,
    );
    assert!(matches!(refused, Err(RuntimeError::ShuttingDown)));
}

fn share_of(fraction: LoadFraction) -> BackendLoadProgress {
    BackendLoadProgress {
        fraction: Some(fraction),
        ..BackendLoadProgress::indeterminate(BackendLoadPhase::LoadingModel)
    }
}

#[test]
fn fractions_are_compared_as_numbers() {
    let same = |one: LoadFraction, two: LoadFraction| {
        let forth = share_of(one).same_as(&share_of(two));
        assert_eq!(forth, share_of(two).same_as(&share_of(one)));
        forth
    };
    let reported = |number: f32| LoadFraction::Reported(number.to_bits());
    assert!(same(reported(0.0), reported(-0.0)));
    assert!(same(reported(0.25), reported(0.25)));
    assert!(!same(reported(0.25), reported(0.5)));
    assert!(!same(reported(f32::NAN), reported(f32::NAN)));
    assert!(same(LoadFraction::Counted(1, 3), LoadFraction::Counted(1, 3)));
    assert!(same(LoadFraction::Counted(0, 7), reported(-0.0)));
    assert!(same(LoadFraction::Counted(u64::MAX, u64::MAX), reported(1.0)));
    let far = [
        (16_777_215, 16_777_216),
        (1, 16_777_216),
        (8_388_607, 16_777_215),
        (16_777_214, 16_777_215),
        (5_592_405, 16_777_216),
        (16_777_217, 33_554_435),
        (5_368_709_120, 12_884_901_888),
        (1, u64::MAX),
        (u64::MAX - 1, u64::MAX),
    ];
    let mut seed = 1u64;
    let mut next = || {
        seed = seed.wrapping_mul(6_364_136_223_846_793_005).wrapping_add(1_442_695_040_888_963_407);
        seed >> (seed % 50)
    };
    let wide: Vec<(u64, u64)> = (0..3_000)
        .map(|_| (next(), next()))
        .map(|(one, two)| (one.min(two).max(1), one.max(two).max(1)))
        .collect();
    let near = (1..300u64).flat_map(|total| (1..=total).map(move |current| (current, total)));
    for (current, total) in near.chain(far).chain(wide) {
        let number = current as f32 / total as f32;
        let counted = LoadFraction::Counted(current, total);
        assert!(same(counted, reported(number)), "{current} of {total}");
        for other in [number.to_bits() - 1, number.to_bits() + 1] {
            assert!(!same(counted, LoadFraction::Reported(other)), "{current} of {total}");
        }
    }
    assert!(!share_of(reported(0.0)).same_as(&BackendLoadProgress::indeterminate(
        BackendLoadPhase::LoadingModel
    )));
}
