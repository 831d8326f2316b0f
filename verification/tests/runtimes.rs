use norted::backend::RuntimeSelectionSource;
use norted::catalog::{
    admit_installation, check_update, history_compared, prerequisite_keys, release_update_state,
    search_results, update_action, ModelFit, RuntimeAnswers, RuntimeCatalogEntry,
    RuntimeProviderError, RuntimeSearchResult, RuntimeSearchSnapshot, RuntimeUpdateCheck,
    SearchCandidate, UpdateAction, UpdateStep,
};
use norted::cli::PruneArgs;
use norted::duplicate::Duplicate;
use norted::engines::{EngineProbe, InstallationState};
use norted::externals::{
    external_identity, external_probe, external_runtime, external_step, ExternalBinary,
    ExternalProbe, ExternalStep,
};
use norted::pruning::{
    comparable_versions, is_reset_runtime_entry, is_unfinished_download, model_prune_folders,
    plan_runtime_prune, prune_confirmation, prune_consent, prune_report, same_group,
    PruneConfirmation, PruneEntry, PrunePlan, PruneVerdict,
};
use norted::resolution::{
    assess_installed, compatible_installed_for_model, list_installed, resolve_from_snapshot,
    select_format_with_preference, select_model_with_preference, FoundRuntime,
    InstalledRuntimeStatus, ModelAnswers, RuntimeCandidate, WantedModel,
};
use norted::runtimes::{
    AvailableRuntime, InstalledRuntime, RuntimeAcquisitionMethod, RuntimeAcquisitionPlan,
    RuntimeCompatibility, RuntimeIdentity, RuntimeManifest, RuntimePackError,
    RuntimePackageIdentity, RuntimeProbeObservation, RuntimeReleaseChannel,
};
use norted::schemas::{
    bound_engine, model_serving_capabilities, model_settings_schema_for_engine,
    normalize_settings, plan_runtime_schemas, selected_runtime_settings_schemas, sorted_unique,
    structured_output, validate_configuration, validate_runtime_settings, EngineCapability,
    EngineDefinitions, EngineRuntime, EngineSwitch, ModelSettings, SchemaOutcome, SelectedServing,
    SettingDefinition, SettingsSchema,
};
use norted::selections::{selected_for, selection_for_runtime, RuntimeSelections};
use norted::store::{
    admit_activation, admit_found, admit_removal, admit_replacement, check_entrypoint,
    check_ownership, check_read_schema, check_removable, check_unselected, check_written_schema,
    find_runtime, installation_path_for, is_inside, is_internal_place, is_internal_store_segment,
    is_managed_parent, is_managed_place, provenance_difference, removal_target,
    repairable_runtime_manifest, safe_segment, same_claimed_release_identity, scan_entries, sort_scan,
    verify_exact_manifest, Displaced, FoundManifest, PathStep, RuntimeStore, RuntimeStoreError,
    StoreEntry,
};
use norted::table::Table;
use norted::updates::{
    GitHubCompare, GitHubComparisonStatus, RuntimeUpdatePreference, RuntimeUpdateState,
};

fn identity(version: &str) -> RuntimeIdentity {
    RuntimeIdentity {
        engine_id: "fixture".to_owned(),
        package_family: "fixture-pack".to_owned(),
        version: version.to_owned(),
        upstream_revision: Some("revision".to_owned()),
        platform: "linux".to_owned(),
        architecture: "x86_64".to_owned(),
        accelerator: "cpu".to_owned(),
        variant: "default".to_owned(),
        package: RuntimePackageIdentity {
            provider_id: "fixture-provider".to_owned(),
            repository: Some("owner/repository".to_owned()),
            release_tag: Some(version.to_owned()),
            asset_id: Some("1".to_owned()),
            asset_name: Some("fixture.zip".to_owned()),
            additional_assets: Vec::new(),
        },
    }
}

fn installed(id: &str, version: &str) -> InstalledRuntime {
    InstalledRuntime {
        manifest: RuntimeManifest {
            schema_version: 1,
            runtime_id: id.to_owned(),
            identity: identity(version),
            supported_formats: vec!["gguf".to_owned()],
            supported_native_identities: Vec::new(),
            requirements: "{}".to_owned(),
            acquisition_method: RuntimeAcquisitionMethod::OfficialReleaseAsset,
            source_url: Some("https://github.com/owner/repository/releases/tag/v1".to_owned()),
            downloaded_archive_sha256: Some("a".repeat(64)),
            additional_downloaded_archive_sha256: Vec::new(),
            source_build: None,
            entrypoint: "server".to_owned(),
            entrypoint_sha256: "b".repeat(64),
            installed_at_unix: Some(1),
            probe: RuntimeProbeObservation {
                compatible: true,
                observed_engine_id: "fixture".to_owned(),
                observed_version: Some(version.to_owned()),
                observed_revision: None,
                detail: "fixture probe".to_owned(),
                observed_at_unix: 1,
            },
        },
        installation_root: format!("/data/runtimes/{id}"),
        engine_variant: None,
    }
}

fn available(id: &str, version: &str) -> AvailableRuntime {
    AvailableRuntime {
        runtime_id: id.to_owned(),
        identity: identity(version),
        supported_formats: vec!["gguf".to_owned()],
        source_url: "https://github.com/owner/repository/releases/tag/v1".to_owned(),
        published_at_unix: Some(1),
        channels: vec![RuntimeReleaseChannel::Stable],
        prerelease: false,
        acquisition: RuntimeAcquisitionPlan::ReleaseAsset {
            digest: Some("a".repeat(64)),
            additional_digests: Vec::new(),
        },
        requirements: "{}".to_owned(),
        engine_variant: None,
    }
}

#[test]
fn segments_are_safe() {
    assert_eq!(safe_segment("Q27 Engine/../v1"), "q27-engine-..-v1");
    assert_eq!(safe_segment("..hidden."), "hidden");
    assert_eq!(safe_segment("--"), "unknown");
    assert_eq!(safe_segment(""), "unknown");
    assert_eq!(safe_segment("é"), "unknown");
    assert_eq!(
        installation_path_for(&installed("fixture-id", "v1").manifest),
        ["fixture", "linux-x86_64-cpu-default", "v1", "fixture-id"]
    );
    assert!(is_internal_store_segment(".staging"));
    assert!(is_internal_store_segment(".locks"));
    assert!(is_internal_store_segment(".trash"));
    assert!(!is_internal_store_segment("fixture"));
    let store = RuntimeStore::new("/data/runtimes", "/data/runtime-selections.json");
    assert_eq!(store.root(), "/data/runtimes");
    assert_eq!(store.selections_file(), "/data/runtime-selections.json");
}

#[test]
fn places_are_told_apart() {
    let name = |text: &str| PathStep::Name(text.to_owned());
    assert!(is_managed_place(&vec![name("a"), name("b"), name("c"), name("d")]));
    assert!(!is_managed_place(&vec![name("a"), name("b"), name("c")]));
    assert!(!is_managed_place(&vec![name(".trash"), name("b"), name("c"), name("d")]));
    assert!(!is_managed_place(&vec![name("a"), PathStep::Other, name("c"), name("d")]));
    assert!(is_managed_parent(&vec![name("a")]));
    let root = vec!["data".to_owned(), "runtimes".to_owned()];
    let place = vec!["data".to_owned(), "runtimes".to_owned(), "x".to_owned()];
    assert!(is_inside(&place, &root));
    assert!(!is_inside(&root, &root));
    assert!(!is_inside(&root, &place));
    let trash = vec!["data".to_owned(), "runtimes".to_owned(), ".trash".to_owned(), "y".to_owned()];
    let parent = vec!["data".to_owned(), "runtimes".to_owned(), ".trash".to_owned()];
    assert!(is_internal_place(&trash, &parent, &root));
    assert!(!is_internal_place(&place, &parent, &root));
}

#[test]
fn activation_keeps_what_was_installed() {
    let present = installed("one", "v1");
    let runtimes = vec![present.duplicate()];
    assert!(matches!(admit_activation(&runtimes, &present.manifest), Ok(Some(0))));
    assert!(matches!(
        admit_activation(&Vec::new(), &present.manifest),
        Ok(None)
    ));
    let mut changed = present.duplicate();
    changed.manifest.downloaded_archive_sha256 = Some("c".repeat(64));
    let conflict = admit_activation(&runtimes, &changed.manifest);
    assert!(matches!(
        conflict,
        Err(RuntimeStoreError::ProvenanceConflict { ref runtime_id, ref detail })
            if runtime_id == "one" && detail.contains("archive digest")
    ));
    let renamed = installed("two", "v1");
    assert!(same_claimed_release_identity(&present.manifest, &renamed.manifest));
    assert!(matches!(
        admit_activation(&runtimes, &renamed.manifest),
        Err(RuntimeStoreError::ProvenanceConflict { runtime_id, detail })
            if runtime_id == "two" && detail.contains("`one`")
    ));
    assert_eq!(find_runtime(&runtimes, "one"), Some(0));
    assert_eq!(find_runtime(&runtimes, "two"), None);
}

#[test]
fn corrupt_entrypoint_is_not_listed_and_can_be_repaired_or_removed() {
    let runtime = installed("one", "v1");
    let corrupt = check_entrypoint(&runtime.manifest, &"0".repeat(64), "/data/runtime.json");
    let error = corrupt.err().expect("scan corrupt runtime");
    assert!(error.message().contains("SHA-256"));
    assert!(check_entrypoint(&runtime.manifest, &"b".repeat(64), "/data/runtime.json").is_ok());
    assert!(repairable_runtime_manifest(&runtime.manifest, &runtime.manifest));
    let entry = |digest: String| {
        StoreEntry::Found(FoundManifest {
            path: "/data/runtime.json".to_owned(),
            installation_root: "/data".to_owned(),
            at: installation_path_for(&runtime.manifest),
            expected: "/data".to_owned(),
            manifest: runtime.manifest.duplicate(),
            managed: Ok(()),
            entrypoint: Ok(digest),
        })
    };
    let snapshot = scan_entries(vec![entry("0".repeat(64))]);
    assert!(snapshot.runtimes.is_empty());
    assert!(snapshot.warnings.iter().any(|warning| warning.contains("SHA-256")));
    assert_eq!(snapshot.issues.len(), 1);
    assert!(matches!(admit_activation(&snapshot.runtimes, &runtime.manifest), Ok(None)));
    let unseen = StoreEntry::Unseen("no entry".to_owned());
    let unread = StoreEntry::Unread(RuntimeStoreError::UnsafePath("/x".to_owned()));
    let snapshot = scan_entries(vec![unseen, entry("B".repeat(64)), unread]);
    assert_eq!(snapshot.runtimes.len(), 1);
    assert_eq!(snapshot.runtimes[0].installation_root, "/data");
    assert_eq!(snapshot.warnings.len(), 2);
    assert_eq!(snapshot.warnings[0], "no entry");
    assert_eq!(snapshot.issues.len(), 1);
    let repair = admit_replacement(&Some(runtime.manifest.duplicate()), &runtime.manifest, "/data/x");
    assert!(matches!(repair, Ok(Displaced::Repair)));
    assert!(matches!(admit_replacement(&None, &runtime.manifest, "/data/x"), Ok(Displaced::Orphan)));
    let mut other = runtime.manifest.duplicate();
    other.entrypoint_sha256 = "d".repeat(64);
    assert!(admit_replacement(&Some(other.duplicate()), &runtime.manifest, "/data/x").is_err());
    assert_eq!(
        provenance_difference(&runtime.manifest, &other),
        format!(
            "the entrypoint digest changed from {} to {}",
            "b".repeat(64),
            "d".repeat(64)
        )
    );
    assert!(Displaced::Repair.quarantine_name("id").contains("repair"));
    assert!(verify_exact_manifest(&runtime.manifest, &runtime.manifest, "/data/x").is_ok());
    assert!(verify_exact_manifest(&other, &runtime.manifest, "/data/x").is_err());
    let home = installation_path_for(&runtime.manifest);
    assert!(check_ownership(&runtime.manifest, "one", &home, "/data/x").is_ok());
    assert!(check_ownership(&runtime.manifest, "two", &home, "/data/x").is_err());
    assert!(check_removable(&runtime.manifest, &home, "/data/x").is_ok());
    let mut external = runtime.manifest.duplicate();
    external.acquisition_method = RuntimeAcquisitionMethod::ExternalBinary;
    assert!(matches!(
        check_removable(&external, &home, "/data/x"),
        Err(RuntimeStoreError::ExternalRuntime(id)) if id == "one"
    ));
}

#[test]
fn manifests_stand_where_their_identity_says() {
    let runtime = installed("one", "v1");
    let home = installation_path_for(&runtime.manifest);
    assert!(admit_found(&runtime.manifest, &home, "/p", "/e").is_ok());
    let elsewhere = vec!["fixture".to_owned()];
    assert!(matches!(
        admit_found(&runtime.manifest, &elsewhere, "/p", "/e"),
        Err(RuntimeStoreError::InvalidManifest { path, message })
            if path == "/p" && message.ends_with("installation path /e")
    ));
    assert!(check_read_schema(1, 1).is_ok());
    assert!(check_read_schema(2, 1).is_err());
    assert!(check_written_schema(1, 1).is_ok());
    assert!(matches!(
        check_written_schema(2, 1),
        Err(RuntimeStoreError::InvalidSelections(_))
    ));
    assert!(matches!(
        removal_target(&vec!["/a".to_owned()], "one", "/data"),
        Ok(place) if place == "/a"
    ));
    assert!(matches!(
        removal_target(&Vec::new(), "one", "/data"),
        Err(RuntimeStoreError::NotInstalled(id)) if id == "one"
    ));
    assert!(removal_target(&vec!["/a".to_owned(), "/b".to_owned()], "one", "/data").is_err());
    let scanned = sort_scan(vec![installed("one", "v1"), installed("two", "v2")]);
    assert_eq!(scanned[0].manifest.runtime_id, "two");
}

#[test]
fn active_and_selected_runtimes_stay() {
    assert!(admit_removal("one", &None).is_ok());
    assert!(matches!(
        admit_removal("one", &Some("one".to_owned())),
        Err(RuntimePackError::Active(id)) if id == "one"
    ));
    let mut selections = RuntimeSelections::new();
    assert!(check_unselected(&selections, "one").is_ok());
    selections.select_format("gguf", "one", RuntimeUpdatePreference::Stable);
    let error = check_unselected(&selections, "one").err().expect("selected");
    assert!(matches!(error, RuntimeStoreError::RuntimeSelected { .. }));
    assert!(matches!(
        error.into_removal_error("one"),
        RuntimePackError::Selected { runtime_id, .. } if runtime_id == "one"
    ));
    assert!(matches!(
        RuntimeStoreError::RuntimeInUse("one".to_owned()).into_removal_error("one"),
        RuntimePackError::Active(_)
    ));
    assert!(matches!(
        RuntimeStoreError::UnsafePath("/x".to_owned()).into_removal_error("one"),
        RuntimePackError::Other(text) if text == "runtime path failed the store containment check: /x"
    ));
    assert_eq!(
        RuntimeStoreError::Io { path: "/x".to_owned(), source: "denied".to_owned() }.message(),
        "runtime store I/O failed at /x: denied"
    );
}

#[test]
fn clearing_a_choice_undoes_choosing() {
    let mut selections = RuntimeSelections::new();
    selections.select_format("gguf", "one", RuntimeUpdatePreference::Pinned);
    selections.select_model("chat", "one", RuntimeUpdatePreference::Latest);
    assert_eq!(selections.update_preference("one"), RuntimeUpdatePreference::Latest);
    assert_eq!(selected_for(&selections, "one").len(), 2);
    assert!(selection_for_runtime(&selections, "one").is_some());
    selections.clear_model("chat");
    assert_eq!(selected_for(&selections, "one").len(), 1);
    selections.clear_format("gguf");
    assert!(selected_for(&selections, "one").is_empty());
    assert!(selection_for_runtime(&selections, "one").is_none());
    assert_eq!(selections.update_preferences.len(), 0);
    assert_eq!(selections.update_preference("one"), RuntimeUpdatePreference::Latest);
}

#[test]
fn outdated_runtimes_are_pruned_and_the_newest_stays() {
    let runtimes = vec![installed("one", "v1.0.0"), installed("two", "v2.0.0"), installed("odd", "nightly")];
    let mut selections = RuntimeSelections::new();
    let verdicts = plan_runtime_prune(&runtimes, &selections);
    assert!(matches!(verdicts[0], PruneVerdict::Remove));
    assert!(matches!(verdicts[1], PruneVerdict::Protect(ref reason)
        if reason == "runtime two: newest or no proven replacement"));
    assert!(matches!(verdicts[2], PruneVerdict::Protect(_)));
    selections.select_model("chat", "one", RuntimeUpdatePreference::Pinned);
    let verdicts = plan_runtime_prune(&runtimes, &selections);
    assert!(matches!(verdicts[0], PruneVerdict::Protect(ref reason)
        if reason == "runtime one: explicitly selected"));
    assert!(same_group(&runtimes[0].manifest, &runtimes[1].manifest));
    assert!(comparable_versions(&runtimes[0].manifest, &runtimes[1].manifest));
    assert!(!comparable_versions(&runtimes[0].manifest, &runtimes[2].manifest));
}

#[test]
fn pruning_is_reported_and_confirmed() {
    let plan = PrunePlan {
        mode: "cache".to_owned(),
        categories: vec!["runtime cache".to_owned(), "logs".to_owned()],
        entries: vec![PruneEntry {
            category: "logs".to_owned(),
            path: "/logs/a".to_owned(),
            files: 3,
            expected_bytes: 12,
        }],
        expected_bytes: 12,
        removed_paths: 0,
        removed_files: 0,
        filesystem_reclaimed_bytes: None,
        filesystem_reclaimed_by_root: Vec::new(),
        protected: vec!["runtime one: explicitly selected".to_owned()],
    };
    assert_eq!(
        prune_report(&plan, true),
        [
            "Prune mode: cache (dry-run)",
            "Categories: runtime cache, logs",
            "Plan: 1 paths, 3 files; expected reclaim 12 bytes (logical)",
            "  logs: /logs/a (12 bytes)",
            "Removed: 0 paths, 0 files; filesystem reclaim: not measured",
            "Protected: runtime one: explicitly selected",
        ]
    );
    let args = |all: bool, dry_run: bool, yes: bool| PruneArgs { all, dry_run, yes };
    assert_eq!(prune_confirmation(&args(true, false, true), false), PruneConfirmation::Proceed);
    assert_eq!(prune_confirmation(&args(true, true, false), false), PruneConfirmation::Proceed);
    assert_eq!(prune_confirmation(&args(true, false, false), true), PruneConfirmation::Ask);
    assert_eq!(prune_confirmation(&args(true, false, false), false), PruneConfirmation::Refuse);
    assert!(prune_consent("yes\n"));
    assert!(!prune_consent("no"));
    assert!(model_prune_folders(true).len() >= model_prune_folders(false).len());
    assert!(is_unfinished_download("model.gguf.part"));
    assert!(!is_unfinished_download("locks"));
    assert!(!is_reset_runtime_entry(".locks"));
    assert!(is_reset_runtime_entry("fixture"));
}

fn answers(model: Option<&str>, preference: u64) -> Option<(RuntimeAnswers, ModelAnswers)> {
    Some((
        RuntimeAnswers { management: None, runtime: None },
        ModelAnswers {
            accepts_format: true,
            model: model.map(|reason| reason.to_owned()),
            runtime_model: RuntimeCompatibility::Compatible,
            preference,
            accelerator_binding: Some(format!("gpu-{preference}")),
        },
    ))
}

fn candidate(id: &str, version: &str, preference: u64) -> RuntimeCandidate {
    RuntimeCandidate {
        status: InstalledRuntimeStatus {
            runtime: installed(id, version),
            latest_installed: true,
            compatibility: RuntimeCompatibility::Compatible,
            selected_for: Vec::new(),
        },
        answers: answers(None, preference),
        host: RuntimeCompatibility::Compatible,
    }
}

fn wanted() -> WantedModel {
    WantedModel { id: "chat".to_owned(), format: "gguf".to_owned() }
}

#[test]
fn runtimes_are_chosen_by_invocation_then_model_then_format_then_rank() {
    let candidates = vec![candidate("one", "v1.0.0", 5), candidate("two", "v2.0.0", 7)];
    let mut selections = RuntimeSelections::new();
    let chosen = |selections: &RuntimeSelections, explicit: Option<&str>| {
        resolve_from_snapshot(&candidates, selections, &wanted(), explicit, &None)
            .ok()
            .expect("a runtime")
    };
    let fallback = chosen(&selections, None);
    assert_eq!(fallback.runtime.manifest.runtime_id, "one");
    assert_eq!(fallback.source, RuntimeSelectionSource::Fallback);
    assert_eq!(fallback.accelerator_binding.as_deref(), Some("gpu-5"));
    selections.select_format("gguf", "two", RuntimeUpdatePreference::Stable);
    let by_format = chosen(&selections, None);
    assert_eq!(by_format.runtime.manifest.runtime_id, "two");
    assert_eq!(by_format.source, RuntimeSelectionSource::FormatDefault);
    selections.select_model("chat", "one", RuntimeUpdatePreference::Stable);
    let by_model = chosen(&selections, None);
    assert_eq!(by_model.runtime.manifest.runtime_id, "one");
    assert_eq!(by_model.source, RuntimeSelectionSource::ModelOverride);
    let invoked = chosen(&selections, Some("two"));
    assert_eq!(invoked.runtime.manifest.runtime_id, "two");
    assert_eq!(invoked.source, RuntimeSelectionSource::Invocation);
}

#[test]
fn a_selected_runtime_is_used_and_an_unfit_one_is_not_selected() {
    let mut unfit = candidate("unfit", "v3.0.0", 1);
    unfit.answers = answers(Some("wrong tensor layout"), 1);
    let candidates =
        vec![candidate("one", "v1.0.0", 5), candidate("two", "v2.0.0", 7), unfit];
    let mut selections = RuntimeSelections::new();
    let pinned = RuntimeUpdatePreference::Pinned;
    let missing =
        select_model_with_preference(&mut selections, &candidates, &wanted(), "gone", pinned);
    assert!(matches!(missing, Err(RuntimePackError::NotInstalled(id)) if id == "gone"));
    let refused =
        select_model_with_preference(&mut selections, &candidates, &wanted(), "unfit", pinned);
    assert!(matches!(refused, Err(RuntimePackError::Incompatible { runtime_id, reason })
        if runtime_id == "unfit" && reason == "wrong tensor layout"));
    let format = select_format_with_preference(&mut selections, &candidates, "q27", "two", pinned);
    assert!(matches!(format, Err(RuntimePackError::Incompatible { reason, .. })
        if reason == "runtime does not support q27"));
    assert_eq!(selections.model_overrides.len(), 0);
    assert_eq!(selections.format_defaults.len(), 0);
    let formats = select_format_with_preference(
        &mut selections,
        &candidates,
        "gguf",
        "one",
        RuntimeUpdatePreference::Stable,
    );
    assert!(formats.is_ok());
    let models =
        select_model_with_preference(&mut selections, &candidates, &wanted(), "two", pinned);
    assert!(models.is_ok());
    assert_eq!(selections.update_preference("two"), RuntimeUpdatePreference::Pinned);
    let used = resolve_from_snapshot(&candidates, &selections, &wanted(), None, &None)
        .ok()
        .expect("a runtime");
    assert_eq!(used.runtime.manifest.runtime_id, "two");
    assert_eq!(used.source, RuntimeSelectionSource::ModelOverride);
}

#[test]
fn settings_are_held_against_an_installed_runtime() {
    let installed = vec!["one".to_owned(), "two".to_owned()];
    let found = validate_runtime_settings(None, &Some("two".to_owned()), &installed);
    assert_eq!(found.ok(), Some(1));
    for runtime_id in [None, Some("gone".to_owned())] {
        let absent = validate_runtime_settings(None, &runtime_id, &installed);
        assert!(matches!(absent, Err(RuntimePackError::Selection(reason))
            if reason == "No installed runtime selected"));
    }
    let fault = Some("too large".to_owned());
    let refused = validate_runtime_settings(fault, &Some("two".to_owned()), &installed);
    assert!(matches!(refused, Err(RuntimePackError::Selection(reason)) if reason == "too large"));
    assert!(validate_configuration("fixture", Some(Ok(()))).is_ok());
    let unknown = validate_configuration("fixture", None);
    assert!(matches!(unknown, Err(RuntimePackError::Selection(reason))
        if reason == "unknown engine `fixture`"));
    let failed = validate_configuration("fixture", Some(Err("no memory".to_owned())));
    assert!(matches!(failed, Err(RuntimePackError::Adapter(reason)) if reason == "no memory"));
    assert!(normalize_settings("fixture", Some(Ok(()))).is_ok());
    let unbound = normalize_settings("fixture", None);
    assert!(matches!(unbound, Err(RuntimePackError::Selection(reason))
        if reason == "bound engine `fixture` is not registered"));
    let failed = normalize_settings("fixture", Some(Err("bad".to_owned())));
    assert!(matches!(failed, Err(RuntimePackError::Adapter(reason)) if reason == "bad"));
}

#[test]
fn a_model_has_the_settings_of_its_bound_engine() {
    let settings = |unsupported: Option<&str>, definitions| {
        Some(ModelSettings { unsupported: unsupported.map(str::to_owned), definitions })
    };
    let answer = settings(None, Ok(vec![definition("fixture.threads")]));
    let schema = model_settings_schema_for_engine("fixture", answer).ok().expect("a schema");
    assert_eq!(schema.engine_id, "fixture");
    assert_eq!(schema.runtime_id, None);
    assert_eq!(schema.definitions[0].id, "fixture.threads");
    let unsupported = settings(Some("wrong format"), Ok(Vec::new()));
    let refused = model_settings_schema_for_engine("fixture", unsupported);
    assert!(matches!(refused, Err(RuntimePackError::Selection(reason)) if reason == "wrong format"));
    let broken = model_settings_schema_for_engine("fixture", settings(None, Err("x".to_owned())));
    assert!(matches!(broken, Err(RuntimePackError::Adapter(reason)) if reason == "x"));
    let missing = model_settings_schema_for_engine("fixture", None);
    assert!(matches!(missing, Err(RuntimePackError::Selection(reason))
        if reason == "bound engine `fixture` is not registered"));
}

#[test]
fn runtimes_that_cannot_serve_are_refused() {
    let mut unfit = candidate("one", "v1.0.0", 5);
    unfit.answers = answers(Some("wrong tensor layout"), 5);
    let candidates = vec![unfit];
    let selections = RuntimeSelections::new();
    let refused = resolve_from_snapshot(&candidates, &selections, &wanted(), None, &None);
    let error = refused.err().expect("no runtime");
    assert_eq!(
        error.message(),
        RuntimePackError::Selection(
            "no compatible installed runtime is available for model `chat` (gguf); candidate rejections: one: wrong tensor layout"
                .to_owned()
        )
        .message()
    );
    let missing = resolve_from_snapshot(&candidates, &selections, &wanted(), Some("gone"), &None);
    assert!(matches!(missing, Err(RuntimePackError::NotInstalled(id)) if id == "gone"));
    let bound = resolve_from_snapshot(
        &vec![candidate("one", "v1.0.0", 5)],
        &selections,
        &wanted(),
        Some("one"),
        &Some("other".to_owned()),
    );
    assert!(matches!(bound, Err(RuntimePackError::Incompatible { reason, .. })
        if reason == "Model Profile binds engine `other` but runtime uses `fixture`"));
    assert!(candidates[0].validate_model_candidate("gguf").is_err());
    assert!(candidates[0].validate_format_candidate("gguf").is_ok());
    assert!(candidates[0].validate_format_candidate("q27").is_err());
    assert!(compatible_installed_for_model(&vec![candidate("one", "v1.0.0", 5)], &wanted())
        .is_ok_and(|list| list.len() == 1));
}

#[test]
fn installed_runtimes_are_listed_with_their_badges() {
    let found = |id: &str, version: &str| FoundRuntime {
        runtime: installed(id, version),
        answers: Some(RuntimeAnswers { management: None, runtime: None }),
        host: RuntimeCompatibility::Recommended,
    };
    let mut selections = RuntimeSelections::new();
    selections.select_format("gguf", "one", RuntimeUpdatePreference::Stable);
    let statuses = assess_installed(&vec![found("one", "v1.0.0"), found("two", "v2.0.0")], &selections);
    assert!(!statuses[0].latest_installed);
    assert!(statuses[1].latest_installed);
    assert_eq!(statuses[0].selected_for.len(), 1);
    assert!(matches!(statuses[0].compatibility, RuntimeCompatibility::Recommended));
    let mut unregistered = found("three", "v3.0.0");
    unregistered.answers = None;
    let listed = list_installed(vec![found("one", "v1.0.0"), unregistered], &selections);
    assert_eq!(listed.len(), 2);
    assert!(listed
        .iter()
        .any(|status| matches!(status.compatibility, RuntimeCompatibility::Incompatible(ref reason)
            if reason == "engine adapter is not registered")));
}

fn entry(id: &str, version: &str) -> RuntimeCatalogEntry {
    RuntimeCatalogEntry {
        available: available(id, version),
        compatibility: RuntimeCompatibility::Compatible,
    }
}

fn result(id: &str, version: &str) -> RuntimeSearchResult {
    RuntimeSearchResult {
        entry: entry(id, version),
        installed: false,
        selected_for: Vec::new(),
    }
}

fn snapshot(results: Vec<RuntimeSearchResult>) -> RuntimeSearchSnapshot {
    RuntimeSearchSnapshot {
        results,
        provider_errors: Vec::new(),
        fetched_at_unix: Some(1),
    }
}

#[test]
fn searches_are_ranked_for_a_model() {
    let candidate = |id: &str, preference: u64, key: Option<&str>| SearchCandidate {
        entry: entry(id, "v1.0.0"),
        answers: Some(RuntimeAnswers { management: None, runtime: None }),
        model: Some(ModelFit { preference, compatibility: RuntimeCompatibility::Recommended }),
        prerequisite_key: key.map(|key| key.to_owned()),
    };
    let candidates = || vec![
        candidate("one", 9, Some("tools")),
        candidate("two", 3, None),
        candidate("three", 9, Some("tools")),
    ];
    assert_eq!(prerequisite_keys(&candidates()), ["tools"]);
    let mut evaluated: Table<RuntimeCompatibility> = Table::new();
    evaluated.insert(
        "tools".to_owned(),
        RuntimeCompatibility::NeedsAttention("no compiler".to_owned()),
    );
    let selections = RuntimeSelections::new();
    let ranked = search_results(candidates(), &evaluated, true, &vec!["two".to_owned()], &selections);
    assert_eq!(ranked[0].entry.available.runtime_id, "two");
    assert!(ranked[0].installed);
    assert!(matches!(ranked[1].entry.compatibility, RuntimeCompatibility::NeedsAttention(_)));
    let plain = search_results(candidates(), &evaluated, false, &Vec::new(), &selections);
    assert_eq!(plain[0].entry.available.runtime_id, "one");
}

#[test]
fn installations_are_admitted() {
    let fine = Some(RuntimeAnswers { management: None, runtime: None });
    assert!(admit_installation("one", &entry("one", "v1"), &fine).is_ok());
    assert!(admit_installation("one", &entry("one", "v1"), &None).is_err());
    let managed = Some(RuntimeAnswers { management: Some("held".to_owned()), runtime: None });
    assert!(matches!(
        admit_installation("one", &entry("one", "v1"), &managed),
        Err(RuntimePackError::Incompatible { reason, .. }) if reason == "held"
    ));
    let mut unfit = entry("one", "v1");
    unfit.compatibility = RuntimeCompatibility::Incompatible("no gpu".to_owned());
    assert!(admit_installation("one", &unfit, &fine).is_err());
}

#[test]
fn updates_are_offered_upwards_only() {
    let runtime = installed("one", "v1.0.0");
    let catalog = snapshot(vec![
        result("one", "v1.0.0"),
        result("zero", "v0.9.0"),
        result("two", "v2.0.0"),
    ]);
    let preference = RuntimeUpdatePreference::Stable;
    assert!(matches!(
        check_update(&runtime, preference, &catalog),
        UpdateStep::Compare { published: 0 }
    ));
    let published = available("one", "v1.0.0");
    let state = release_update_state(&runtime, preference, Ok(Some(&published)), &catalog);
    assert!(matches!(state, RuntimeUpdateState::NewerCompatibleVersion { ref runtime_id, .. }
        if runtime_id == "two"));
    let checks = vec![RuntimeUpdateCheck { runtime: installed("one", "v1.0.0"), state }];
    assert!(matches!(update_action(&checks, "one"), Ok(UpdateAction::Install(id)) if id == "two"));
    assert!(update_action(&checks, "gone").is_err());
    let pinned = release_update_state(
        &runtime,
        RuntimeUpdatePreference::Pinned,
        Ok(Some(&published)),
        &catalog,
    );
    assert!(matches!(pinned, RuntimeUpdateState::Pinned { newer_runtime_id: Some(id), .. } if id == "two"));
    let gone = release_update_state(&runtime, preference, Ok(None), &catalog);
    assert!(matches!(gone, RuntimeUpdateState::NoLongerPublished));
    let alone = snapshot(vec![result("one", "v1.0.0")]);
    let current = release_update_state(&runtime, preference, Ok(Some(&published)), &alone);
    assert!(matches!(current, RuntimeUpdateState::Current));
    let latest = release_update_state(
        &runtime,
        RuntimeUpdatePreference::Latest,
        Ok(Some(&published)),
        &alone,
    );
    assert!(matches!(
        latest,
        RuntimeUpdateState::ChannelUnavailable { preference: RuntimeUpdatePreference::Latest }
    ));
}

#[test]
fn providers_that_fail_are_named() {
    let runtime = installed("one", "v1.0.0");
    let mut catalog = snapshot(Vec::new());
    assert!(matches!(
        check_update(&runtime, RuntimeUpdatePreference::Stable, &catalog),
        UpdateStep::LookUp
    ));
    catalog.provider_errors.push(RuntimeProviderError {
        provider_id: "fixture-provider".to_owned(),
        message: "offline".to_owned(),
        using_stale_cache: false,
    });
    let step = check_update(&runtime, RuntimeUpdatePreference::Stable, &catalog);
    let state = match step {
        UpdateStep::Decided(state) => state,
        _ => panic!("the provider failed"),
    };
    assert!(matches!(state, RuntimeUpdateState::CatalogUnavailable(ref message) if message == "offline"));
    let checks = vec![RuntimeUpdateCheck { runtime: installed("one", "v1.0.0"), state }];
    let error = update_action(&checks, "one").err().expect("unavailable");
    assert!(error.message().contains("CatalogUnavailable(\"offline\")"));
    let mut external = installed("one", "v1.0.0");
    external.manifest.acquisition_method = RuntimeAcquisitionMethod::ExternalBinary;
    assert!(matches!(
        check_update(&external, RuntimeUpdatePreference::Stable, &catalog),
        UpdateStep::Decided(RuntimeUpdateState::Unmanaged)
    ));
    let compared = history_compared(
        &runtime,
        RuntimeUpdatePreference::Latest,
        &available("two", "git-new"),
        Ok(GitHubCompare {
            status: GitHubComparisonStatus::Ahead,
            ahead_by: 2,
            behind_by: 0,
        }),
    );
    assert!(matches!(compared, RuntimeUpdateState::NewerCompatibleVersion { runtime_id, .. }
        if runtime_id == "two"));
    let failed = history_compared(
        &runtime,
        RuntimeUpdatePreference::Latest,
        &available("two", "git-new"),
        Err("rate limit".to_owned()),
    );
    assert!(matches!(failed, RuntimeUpdateState::ProviderError(message) if message == "rate limit"));
}

fn definition(id: &str) -> SettingDefinition {
    SettingDefinition {
        id: id.to_owned(),
        supported: true,
        unsupported_reason: None,
        default_preview: None,
    }
}

#[test]
fn bound_engine_schema_resolution_never_selects_another_compatible_engine() {
    assert!(bound_engine("fake_b", true).is_ok());
    assert!(bound_engine("fake_b", false).is_err());
    let mut selections = RuntimeSelections::new();
    selections.select_format("gguf", "runtime-b", RuntimeUpdatePreference::Stable);
    let runtimes = vec![
        EngineRuntime { runtime_id: "runtime-a".to_owned(), engine_id: "fake_a".to_owned() },
        EngineRuntime { runtime_id: "runtime-b".to_owned(), engine_id: "fake_b".to_owned() },
    ];
    let plan = plan_runtime_schemas(&selections, &runtimes);
    assert_eq!(plan.engines, ["fake_b"]);
    let outcomes = vec![SchemaOutcome::Read {
        schema: SettingsSchema {
            engine_id: "fake_b".to_owned(),
            runtime_id: Some("runtime-b".to_owned()),
            definitions: vec![definition("fake_b.marker")],
        },
        complaints: Vec::new(),
    }];
    let engines = vec![EngineDefinitions {
        engine_id: "fake_b".to_owned(),
        definitions: vec![definition("fake_b.marker")],
    }];
    let (schemas, warnings) = selected_runtime_settings_schemas(&plan, &outcomes, &engines);
    let schema = schemas.get("fake_b").expect("bound fake_b schema");
    assert_eq!(schema.engine_id, "fake_b");
    assert_eq!(schema.definitions[0].id, "fake_b.marker");
    assert!(warnings.is_empty());
}

#[test]
fn engines_with_two_chosen_runtimes_are_ambiguous() {
    let mut selections = RuntimeSelections::new();
    selections.select_format("a", "runtime-a", RuntimeUpdatePreference::Stable);
    selections.select_format("b", "runtime-b", RuntimeUpdatePreference::Stable);
    let runtimes = vec![
        EngineRuntime { runtime_id: "runtime-a".to_owned(), engine_id: "fake".to_owned() },
        EngineRuntime { runtime_id: "runtime-b".to_owned(), engine_id: "fake".to_owned() },
    ];
    let plan = plan_runtime_schemas(&selections, &runtimes);
    assert!(plan.ambiguous.contains("fake"));
    let read = |_: &String| SchemaOutcome::Failed("probe failed".to_owned());
    let outcomes = plan.engines.iter().map(read).collect();
    let engines = ["fake", "other"].map(|engine| EngineDefinitions {
        engine_id: engine.to_owned(),
        definitions: vec![definition("shared.threads")],
    });
    let (schemas, warnings) =
        selected_runtime_settings_schemas(&plan, &outcomes, &engines.into_iter().collect());
    assert!(!schemas.contains("fake"));
    let other = schemas.get("other").expect("an engine without a choice");
    assert!(!other.definitions[0].supported);
    assert_eq!(
        other.definitions[0].unsupported_reason.as_deref(),
        Some("No runtime selected/installed for this engine")
    );
    assert_eq!(warnings, ["fake: probe failed"]);
}

#[test]
fn a_switch_of_the_engine_loses_nothing() {
    let mut overrides: Table<String> = Table::new();
    overrides.insert("a.x".to_owned(), "1".to_owned());
    overrides.insert("b.y".to_owned(), "2".to_owned());
    let mut switch = EngineSwitch::new(overrides);
    assert!(switch.retain(&vec!["a.x".to_owned()]));
    assert!(!switch.retain(&vec!["a.x".to_owned()]));
    assert!(switch.overrides().contains("a.x") && !switch.overrides().contains("b.y"));
    let (kept, removed) = switch.finish();
    assert_eq!(kept.get("a.x").map(|value| value.as_str()), Some("1"));
    assert_eq!(removed, ["b.y"]);
    assert_eq!(
        sorted_unique(&vec!["b".to_owned(), "a".to_owned(), "b".to_owned()]),
        ["a", "b"]
    );
}

#[test]
fn serving_capabilities_follow_the_selected_runtime() {
    let engines = vec![EngineCapability {
        engine_id: "fixture".to_owned(),
        embeddings: false,
        chat_completions: true,
        responses: true,
    }];
    let capabilities = model_serving_capabilities(
        &wanted(),
        &Some("chat".to_owned()),
        &vec![candidate("one", "v1.0.0", 5)],
        &engines,
        Some(SelectedServing {
            runtime_id: "one".to_owned(),
            tools: true,
            vision: false,
            structured_output: true,
        }),
    );
    assert_eq!(capabilities.model_id, "chat");
    assert!(capabilities.active);
    assert_eq!(capabilities.compatible_installed_runtime_ids, ["one"]);
    assert_eq!(capabilities.selected_runtime_id.as_deref(), Some("one"));
    assert!(capabilities.tools);
    assert!(!capabilities.vision);
    assert!(capabilities.chat_completions);
    let idle = model_serving_capabilities(&wanted(), &None, &Vec::new(), &engines, None);
    assert!(!idle.active);
    assert!(!idle.tools);
    assert!(idle.compatible_installed_runtime_ids.is_empty());
    assert!(!structured_output("fixture", &vec![definition("fixture.marker")]));
}

#[test]
fn probes_tell_of_external_binaries() {
    let probe = |installation: InstallationState, healthy: bool| {
        Ok(EngineProbe { installation, healthy, detail: "seen".to_owned() })
    };
    let (look, detail) = external_probe(probe(InstallationState::NotInstalled, false));
    assert!(matches!(look, ExternalProbe::NotInstalled));
    assert_eq!(detail, "seen");
    let broken = InstallationState::Invalid { reason: "missing".to_owned() };
    assert!(matches!(
        external_probe(probe(broken, true)).0,
        ExternalProbe::Invalid { reason } if reason == "missing"
    ));
    let (look, detail) = external_probe(Err("boom".to_owned()));
    assert!(matches!(look, ExternalProbe::Failed(error) if error == "boom"));
    assert_eq!(detail, "");
}

#[test]
fn external_binaries_are_taken_as_they_are() {
    assert!(matches!(
        external_step("fixture", &ExternalProbe::Installed { healthy: true }),
        ExternalStep::Take
    ));
    assert!(matches!(
        external_step("fixture", &ExternalProbe::NotInstalled),
        ExternalStep::Skip
    ));
    assert!(matches!(
        external_step("fixture", &ExternalProbe::Failed("boom".to_owned())),
        ExternalStep::Warn(text) if text.contains("boom")
    ));
    assert!(matches!(
        external_step("fixture", &ExternalProbe::Invalid { reason: "missing".to_owned() }),
        ExternalStep::Warn(text) if text.contains("missing")
    ));
    let binary = |digest: Option<String>| ExternalBinary {
        binary_path: "/opt/bin/server".to_owned(),
        file_name: Some("server".to_owned()),
        directory: "/opt/bin".to_owned(),
        binary_sha256: digest,
        version: Some("v3".to_owned()),
        revision: None,
        platform: "linux".to_owned(),
        architecture: "x86_64".to_owned(),
        runtime_variant: None,
        source_repository: Some("owner/repository".to_owned()),
        observed_at_unix: 9,
    };
    assert!(external_identity("fixture", &binary(None)).is_err());
    let known = binary(Some("e".repeat(64)));
    let identity = external_identity("fixture", &known).ok().expect("identity");
    assert_eq!(identity.engine_id, "fixture");
    assert_eq!(identity.version, "v3");
    let runtime = external_runtime(
        "fixture",
        &known,
        identity,
        "external-fixture",
        vec!["gguf".to_owned()],
        "observed",
        1,
        "{}",
    );
    assert_eq!(runtime.manifest.runtime_id, "external-fixture");
    assert_eq!(runtime.manifest.acquisition_method, RuntimeAcquisitionMethod::ExternalBinary);
    assert_eq!(runtime.manifest.entrypoint_sha256, "e".repeat(64));
    assert_eq!(runtime.installation_root, "/opt/bin");
}
