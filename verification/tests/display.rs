use norted::catalog::{
    RuntimeCatalogEntry, RuntimeProviderError, RuntimeSearchResult, RuntimeSearchSnapshot,
    RuntimeUpdateCheck,
};
use norted::output::profiles::{
    profile, profiles, Assignments, GenerationShown, NinferShown, PromptShown, Q27Shown,
    ServeProfileShown, SpeculativeShown,
};
use norted::output::runtimes::{
    entrypoint_path, runtime_operation, runtime_updates, runtimes_list, runtimes_search,
    SearchNotes,
};
use norted::output::{config, model_info, ConfigSource, NinferIdentity, PackageShown};
use norted::resolution::InstalledRuntimeStatus;
use norted::runtimes::{
    AvailableRuntime, InstalledRuntime, RuntimeAcquisitionMethod, RuntimeAcquisitionPlan,
    RuntimeCompatibility, RuntimeIdentity, RuntimeManifest, RuntimePackageIdentity,
    RuntimeProbeObservation, RuntimeReleaseChannel,
};
use norted::schemas::ModelServingCapabilities;
use norted::table::Table;
use norted::updates::RuntimeUpdateState;

fn identity() -> RuntimeIdentity {
    RuntimeIdentity {
        engine_id: "q27".to_owned(),
        package_family: "q27-official-release".to_owned(),
        version: "0.10.0".to_owned(),
        upstream_revision: None,
        platform: "linux".to_owned(),
        architecture: "x86_64".to_owned(),
        accelerator: "cuda".to_owned(),
        variant: "w12".to_owned(),
        package: RuntimePackageIdentity {
            provider_id: "q27-official-github".to_owned(),
            repository: None,
            release_tag: None,
            asset_id: None,
            asset_name: None,
            additional_assets: Vec::new(),
        },
    }
}

fn runtime(entrypoint: &str) -> InstalledRuntime {
    InstalledRuntime {
        manifest: RuntimeManifest {
            schema_version: 1,
            runtime_id: "q27-0.10.0".to_owned(),
            identity: identity(),
            supported_formats: vec!["q27".to_owned()],
            supported_native_identities: Vec::new(),
            requirements: String::new(),
            acquisition_method: RuntimeAcquisitionMethod::OfficialReleaseAsset,
            source_url: None,
            downloaded_archive_sha256: None,
            additional_downloaded_archive_sha256: Vec::new(),
            source_build: None,
            entrypoint: entrypoint.to_owned(),
            entrypoint_sha256: "cc".to_owned(),
            installed_at_unix: None,
            probe: RuntimeProbeObservation {
                compatible: true,
                observed_engine_id: "q27".to_owned(),
                observed_version: None,
                observed_revision: None,
                detail: String::new(),
                observed_at_unix: 1,
            },
        },
        installation_root: "/data/q27".to_owned(),
        engine_variant: None,
    }
}

#[test]
fn runtimes_are_listed() {
    let (lines, warnings) = runtimes_list(
        &vec![InstalledRuntimeStatus {
            runtime: runtime("bin/server"),
            latest_installed: true,
            compatibility: RuntimeCompatibility::Recommended,
            selected_for: vec!["format gguf".to_owned()],
        }],
        &vec!["external binary is odd".to_owned()],
    );
    assert!(lines[0].starts_with("RUNTIME ID"));
    assert!(lines[1].starts_with("q27-0.10.0"));
    assert!(lines[1].ends_with("0.10.0"));
    assert!(lines[1].contains(" selected: "));
    assert_eq!(warnings, ["Warning: external binary is odd"]);
    let (lines, _) = runtimes_list(&Vec::new(), &Vec::new());
    assert_eq!(lines, ["No runtime packs are installed or configured."]);
}

#[test]
fn found_runtimes_are_shown_with_their_notes() {
    let snapshot = RuntimeSearchSnapshot {
        results: vec![RuntimeSearchResult {
            entry: RuntimeCatalogEntry {
                available: AvailableRuntime {
                    runtime_id: "q27-0.10.0".to_owned(),
                    identity: identity(),
                    supported_formats: vec!["q27".to_owned()],
                    source_url: String::new(),
                    published_at_unix: None,
                    channels: vec![RuntimeReleaseChannel::Latest],
                    prerelease: false,
                    acquisition: RuntimeAcquisitionPlan::ReleaseAsset {
                        digest: None,
                        additional_digests: Vec::new(),
                    },
                    requirements: String::new(),
                    engine_variant: None,
                },
                compatibility: RuntimeCompatibility::Compatible,
            },
            installed: true,
            selected_for: Vec::new(),
        }],
        provider_errors: vec![RuntimeProviderError {
            provider_id: "ninfer".to_owned(),
            message: "offline".to_owned(),
            using_stale_cache: true,
        }],
        fetched_at_unix: None,
    };
    let notes = vec![SearchNotes {
        size: Some("12.0 MiB".to_owned()),
        notes: vec!["needs a driver".to_owned()],
    }];
    let (lines, warnings) = runtimes_search(&snapshot, &notes);
    assert!(lines[1].contains("upstream binary 12.0 MiB"));
    assert!(lines[1].ends_with(" installed"));
    assert_eq!(lines[2], "  linux x86_64 / w12  Compatible");
    assert_eq!(lines[3], "  Note: needs a driver");
    assert_eq!(warnings, ["Warning: ninfer: offline (showing stale cache)"]);
}

#[test]
fn operations_name_the_binary() {
    assert_eq!(entrypoint_path(&runtime("bin/server")), "/data/q27/bin/server");
    assert_eq!(entrypoint_path(&runtime("/opt/server")), "/opt/server");
    assert_eq!(
        runtime_operation("install", &runtime("bin/server")),
        [
            "Runtime install complete.",
            "  ID:       q27-0.10.0",
            "  Engine:   q27",
            "  Version:  0.10.0",
            "  Variant:  w12",
            "  Binary:   /data/q27/bin/server",
            "  SHA-256:  cc",
        ]
    );
}

#[test]
fn updates_are_shown_as_states() {
    let check = |state: RuntimeUpdateState| RuntimeUpdateCheck { runtime: runtime("s"), state };
    let lines = runtime_updates(&vec![
        check(RuntimeUpdateState::Current),
        check(RuntimeUpdateState::NewerCompatibleVersion {
            runtime_id: "q27-0.11.0".to_owned(),
            version: "0.11.0".to_owned(),
        }),
        check(RuntimeUpdateState::Pinned { newer_runtime_id: None, newer_version: None }),
        check(RuntimeUpdateState::ProviderError("bad \"tag\"".to_owned())),
    ]);
    assert_eq!(
        lines,
        [
            "  q27 0.10.0: Current",
            "  q27 0.10.0: NewerCompatibleVersion { runtime_id: \"q27-0.11.0\", version: \"0.11.0\" }",
            "  q27 0.10.0: Pinned { newer_runtime_id: None, newer_version: None }",
            "  q27 0.10.0: ProviderError(\"bad \\\"tag\\\"\")",
        ]
    );
    assert_eq!(runtime_updates(&Vec::new()), ["No managed runtimes are installed."]);
}

#[test]
fn models_are_described() {
    let capabilities = ModelServingCapabilities {
        model_id: "chat".to_owned(),
        format: "q27".to_owned(),
        compatible_engine_ids: vec!["q27".to_owned()],
        compatible_installed_runtime_ids: Vec::new(),
        selected_runtime_id: None,
        active: true,
        text_input: true,
        text_output: true,
        responses: false,
        chat_completions: true,
        streaming: true,
        tools: false,
        vision: false,
        structured_output: true,
    };
    let lines = model_info(
        &capabilities,
        &Some(NinferIdentity {
            container_version: "3".to_owned(),
            model_id: "native".to_owned(),
            weights_id: "weights".to_owned(),
        }),
        &Some(PackageShown {
            kind: "q27".to_owned(),
            manifest_schema: "norted".to_owned(),
            manifest_version: "5".to_owned(),
            validation_status: "valid".to_owned(),
            runtime_policy: None,
            runtime_package_capability: None,
            sharp_required: true,
            sharp_validated: false,
            sharp_application_capability: None,
            canonical_lineage_key_short: None,
            ninfer_benchmark_profiles: Vec::new(),
        }),
    );
    assert_eq!(lines[0], "Model:                chat");
    assert!(lines.contains(&"Native weights:       weights".to_owned()));
    assert!(lines.contains(&"Package manifest:     norted v5".to_owned()));
    assert!(lines.contains(
        &"Sharp:                required=yes validated=no application=unknown".to_owned()
    ));
    assert!(lines.contains(&"Compatible runtimes:  none".to_owned()));
    assert_eq!(lines.last().map(|line| line.as_str()), Some("Structured output:    yes"));
}

#[test]
fn configurations_name_their_source() {
    assert_eq!(
        config("/c/config.toml", ConfigSource::Defaults),
        ["# path: /c/config.toml", "# source: built-in defaults; no file written"]
    );
    assert_eq!(ConfigSource::File.label(), "file");
}

fn shown(name: &str) -> ServeProfileShown {
    ServeProfileShown {
        name: name.to_owned(),
        id: "id-1".to_owned(),
        display_name: "Fast".to_owned(),
        source: "package".to_owned(),
        read_only: true,
        description: None,
        artifact_formats: Vec::new(),
        architecture: Some("qwen".to_owned()),
        family: None,
        prompt: PromptShown {
            mode: "chat".to_owned(),
            delivery: "native".to_owned(),
            template: None,
            render_generation_prompt: true,
            response_filter: "none".to_owned(),
        },
        generation: GenerationShown {
            temperature: Some("0.7".to_owned()),
            top_p: None,
            top_k: None,
            min_p: None,
            reasoning_effort: None,
            thinking: "on".to_owned(),
            thinking_required: true,
            allowed_user_overrides: vec!["temperature".to_owned()],
        },
        context_preferred: Some(200_000),
        context_minimum: None,
        q27: Some(Q27Shown {
            kv_quality_order: vec!["fp8".to_owned(), "q8".to_owned()],
            mtp_maximum_depth: 3,
            mtp_minimum_probability: "0.5".to_owned(),
            suffix_drafting: true,
            suffix_width_from_runtime_w_max: false,
            fast_head: true,
            fast_head_override: false,
        }),
        ninfer: Some(NinferShown {
            kv_cache: "paged".to_owned(),
            kv_dtype: "fp8".to_owned(),
            cuda_graph_required: true,
            prefix_reuse_required: false,
            default_speculative_profile: "eagle".to_owned(),
            speculative_profiles: vec![SpeculativeShown {
                name: "eagle".to_owned(),
                speculative_decoding: true,
                backend: None,
                draft_tokens: Some(4),
                optimized_proposal_head: Some(true),
            }],
        }),
        requirements: Vec::new(),
        settings: Vec::new(),
    }
}

#[test]
fn profiles_are_shown_with_their_models() {
    let mut models: Table<String> = Table::new();
    models.insert("zeta".to_owned(), "fast".to_owned());
    models.insert("alpha".to_owned(), "other".to_owned());
    let mut builders: Table<String> = Table::new();
    builders.insert("beta".to_owned(), "fast".to_owned());
    let assignments = Assignments { models, builders, raw_models: 2 };
    let lines = profile(&shown("fast"), &assignments);
    assert_eq!(lines[0], "Serve Profile Fast (id-1)");
    assert!(lines.contains(&"  Applicability:      any format · architecture qwen".to_owned()));
    assert!(lines.iter().any(|line| line.contains("KV fp8 -> q8 · MTP 3 / pmin 0.5")));
    assert!(lines
        .iter()
        .any(|line| line.ends_with("speculative profiles=eagle=missing-backend/4/lm-head-draft")));
    assert!(lines.contains(
        &"  Context:            preferred=200000 minimum=runtime default".to_owned()
    ));
    assert_eq!(
        lines.last().map(|line| line.as_str()),
        Some("  Assigned models: beta, zeta")
    );
    let lines = profiles(&vec![shown("fast")], &assignments);
    assert_eq!(
        lines[1],
        format!("{:<32} {:<18} {:<10} {}", "fast", "package", "read-only", 2)
    );
    assert_eq!(lines[2], "None / Raw runtime defaults: 2 model(s)");
    assert_eq!(profiles(&Vec::new(), &assignments), ["No Serve Profiles exist."]);
}
