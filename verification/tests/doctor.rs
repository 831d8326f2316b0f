use norted::doctor::profiles::{inspect_model_profile, ProfileLook, ProfileRuntimeLook, SchemaLook};
use norted::doctor::report::{
    run_with_paths, run_without_paths, DirectoryFacts, DoctorFacts, EngineFacts, ModelFacts,
    ServerDirectories, SettingsFacts, SurroundingFacts,
};
use norted::doctor::runtimes::{
    inspect_runtimes, store_issue, write_compatibility, RuntimeFindings, RuntimeStoreIssueKind,
};
use norted::doctor::server::{
    add_accelerator_facts, add_basic_host_facts, add_terminal_facts, command_version,
    directory_finding, inspect_auth_store, inspect_config, inspect_control_and_bind,
    inspect_engine_adapter, inspect_models, inspect_profiles, inspect_registry,
    inspect_server_auth, inspect_setting_values, inspect_settings, inspect_source_toolchain,
    nearest_existing_directory, skip_auth, skip_models, source_tools, tries_bind, wants_toolchain,
    AcceleratorFacts, AdapterLook, BindLook, CommandLook, ConfigLook, ControlLook, DirectoryLook,
    EnginePatch, HostFacts, Loaded, ModelPathLook, ModelPathState, ParentLook, PatchEntry,
    PublicAuthStatus, StoreLook,
};
use norted::doctor::{
    bounded_detail, finding, pass, DoctorReport, DoctorStatus, AUTH_KEY_REMEDIATION,
    MODELS_REMEDIATION,
};
use norted::engines::{EngineIdentity, EngineInstallation, EngineProbe, InstallationState};
use norted::lifecycle::BackendLifecycle;
use norted::runtimes::RuntimeCompatibility;
use norted::selections::RuntimeSelections;
use norted::store::RuntimeStoreError;

#[test]
fn summary_counts_warning_as_problem_but_not_failure() {
    let report = DoctorReport::new(vec![
        pass("one", "test", "healthy", None),
        finding(
            "two",
            "test",
            DoctorStatus::Warning,
            "attention",
            None,
            &["review"],
        ),
    ]);
    assert_eq!(report.status, DoctorStatus::Warning);
    assert_eq!(report.summary.problems, 1);
    assert!(!report.has_failures());
}

#[test]
fn remediation_commands_have_real_newline_boundaries() {
    let single_command = AUTH_KEY_REMEDIATION;
    let multiple_commands = format!(
        "Run:\n  norted-server runtimes list\n  norted-server runtimes clear-selection --model {}",
        "example"
    );

    assert_eq!(
        single_command.lines().collect::<Vec<_>>(),
        ["Run:", "  norted-server auth keys create --name <LABEL>"]
    );
    assert_eq!(
        multiple_commands.lines().collect::<Vec<_>>(),
        [
            "Run:",
            "  norted-server runtimes list",
            "  norted-server runtimes clear-selection --model example"
        ]
    );
}

#[test]
fn remediation_newlines_serialize_as_json_escapes() {
    let finding = finding(
        "remediation.newlines",
        "test",
        DoctorStatus::Warning,
        "attention",
        None,
        &[AUTH_KEY_REMEDIATION],
    );

    let mut object = serde_json::Map::new();
    object.insert("code".to_owned(), serde_json::Value::from(finding.code));
    object.insert("remediation".to_owned(), serde_json::Value::from(finding.remediation));
    let json = serde_json::to_string(&object).expect("serialize finding");
    assert!(json.contains(
        r#""remediation":["Run:\n  norted-server auth keys create --name <LABEL>"]"#
    ));
    assert!(!json.contains("Run:norted-server"));
}

#[test]
fn reports_take_the_worst_status() {
    let healthy = DoctorReport::new(vec![pass("one", "test", "healthy", None)]);
    assert_eq!(healthy.status, DoctorStatus::Pass);
    assert_eq!(DoctorReport::new(Vec::new()).status, DoctorStatus::Pass);
    let failing = DoctorReport::new(vec![
        finding("a", "test", DoctorStatus::Fail, "broken", None, &["repair"]),
        finding("b", "test", DoctorStatus::Warning, "attention", None, &["review"]),
        pass("c", "test", "healthy", Some("detail".to_owned())),
    ]);
    assert_eq!(failing.status, DoctorStatus::Fail);
    assert!(failing.has_failures());
    let summary = failing.summary;
    assert_eq!(
        (summary.passes, summary.warnings, summary.failures, summary.problems),
        (1, 1, 1, 2)
    );
    assert_eq!(DoctorStatus::Pass.label(), "PASS");
    assert_eq!(DoctorStatus::Warning.label(), "WARN");
    assert_eq!(DoctorStatus::Fail.label(), "FAIL");
}

#[test]
fn details_are_bounded() {
    assert_eq!(bounded_detail("  a\r\nb  "), "a  b");
    let long = "x".repeat(900);
    let bounded = bounded_detail(&long);
    assert_eq!(bounded.chars().count(), 801);
    assert!(bounded.ends_with('…'));
    assert_eq!(bounded_detail(&"y".repeat(800)), "y".repeat(800));
}

#[test]
fn directories_are_judged_by_what_is_seen() {
    let look = |look: DirectoryLook| directory_finding("paths.data", "Data directory", "/data", &look);
    assert_eq!(
        look(DirectoryLook::Writable).message,
        "Data directory exists and is available for normal writes."
    );
    assert_eq!(
        look(DirectoryLook::Creatable).detail.as_deref(),
        Some("/data (not created by Doctor)")
    );
    for broken in [
        DirectoryLook::NotDirectory,
        DirectoryLook::Unwritable("denied".to_owned()),
        DirectoryLook::Uncreatable("denied".to_owned()),
        DirectoryLook::Inaccessible("denied".to_owned()),
    ] {
        let checked = look(broken);
        assert_eq!(checked.status, DoctorStatus::Fail);
        assert_eq!(checked.remediation.len(), 1);
    }
    assert_eq!(
        nearest_existing_directory(&vec![ParentLook::Missing, ParentLook::Directory]),
        Ok(1)
    );
    assert_eq!(
        nearest_existing_directory(&vec![ParentLook::Missing]),
        Err("no existing parent directory is available".to_owned())
    );
    assert_eq!(
        nearest_existing_directory(&vec![ParentLook::NotDirectory { path: "/a".to_owned() }]),
        Err("/a is not a directory".to_owned())
    );
    assert_eq!(
        nearest_existing_directory(&vec![ParentLook::Inaccessible {
            path: "/a".to_owned(),
            error: "denied".to_owned(),
        }]),
        Err("/a: denied".to_owned())
    );
}

#[test]
fn configurations_must_be_toml() {
    let (checks, usable) = inspect_config("config.toml", &ConfigLook::Absent);
    assert!(usable);
    assert_eq!(checks.len(), 2);
    let (checks, usable) = inspect_config(
        "config.toml",
        &ConfigLook::Read {
            text: "[server]\nport = 8080\n".to_owned(),
            loaded: Loaded::Valid { address: Some("127.0.0.1:8080".to_owned()) },
        },
    );
    assert!(usable);
    assert_eq!(checks[3].detail.as_deref(), Some("127.0.0.1:8080"));
    let (checks, usable) = inspect_config(
        "config.toml",
        &ConfigLook::Read {
            text: "[server\nport = ".to_owned(),
            loaded: Loaded::Valid { address: None },
        },
    );
    assert!(!usable);
    assert_eq!(checks[1].code, "config.toml");
    assert_eq!(checks[1].status, DoctorStatus::Fail);
    assert!(checks[1].detail.as_deref().is_some_and(|detail| detail.contains("TOML parse error")));
    let (checks, usable) = inspect_config(
        "config.toml",
        &ConfigLook::Read {
            text: "a = 1".to_owned(),
            loaded: Loaded::Invalid("unknown field".to_owned()),
        },
    );
    assert!(!usable);
    assert_eq!(checks[2].detail.as_deref(), Some("unknown field"));
    let (checks, usable) = inspect_config("config.toml", &ConfigLook::Unreadable("denied".to_owned()));
    assert!(!usable);
    assert_eq!(checks[0].detail.as_deref(), Some("config.toml: denied"));
}

fn auth(bind_allowed: bool, insecure_remote: bool) -> PublicAuthStatus {
    PublicAuthStatus {
        bind: "0.0.0.0:8080".to_owned(),
        loopback: false,
        configured_mode: "auto".to_owned(),
        effective_mode: "required".to_owned(),
        active_key_count: 0,
        bind_allowed,
        insecure_remote,
    }
}

#[test]
fn authentication_is_checked() {
    let checks = inspect_server_auth(&Ok(auth(false, true)));
    assert_eq!(checks[0].message, "Public bind 0.0.0.0:8080 is remote.");
    assert_eq!(checks[1].code, "auth.required_without_keys");
    assert_eq!(checks[1].remediation, [AUTH_KEY_REMEDIATION]);
    let checks = inspect_server_auth(&Ok(auth(true, true)));
    assert_eq!(checks[1].code, "auth.remote_insecure");
    assert_eq!(checks[1].status, DoctorStatus::Warning);
    let checks = inspect_server_auth(&Ok(auth(true, false)));
    assert_eq!(checks[1].code, "auth.policy");
    assert_eq!(checks[1].status, DoctorStatus::Pass);
    let checks = inspect_server_auth(&Err("bad mode".to_owned()));
    assert_eq!(checks.len(), 1);
    assert_eq!(checks[0].status, DoctorStatus::Fail);
    assert_eq!(skip_auth().code, "auth.skipped");
    assert_eq!(
        inspect_auth_store("keys.json", &StoreLook::Valid(3)).message,
        "API-key state is valid; 3 active key(s)."
    );
    assert_eq!(
        inspect_auth_store("keys.json", &StoreLook::Invalid("bad".to_owned())).status,
        DoctorStatus::Fail
    );
}

#[test]
fn persisted_settings_are_checked() {
    assert_eq!(
        inspect_settings("settings.json", false, &None).message,
        "Settings state is absent; valid defaults apply."
    );
    assert_eq!(
        inspect_settings("settings.json", true, &Some("bad".to_owned())).code,
        "settings.state_invalid"
    );
    let entry = |id: &str, applies: bool| PatchEntry {
        id: id.to_owned(),
        applies,
        fault: None,
    };
    let definitions = Ok(vec!["engine.a".to_owned()]);
    let checks = inspect_setting_values(
        &vec![entry("engine.a", true), entry("engine.b", true)],
        &vec![
            EnginePatch {
                engine_id: "engine".to_owned(),
                registered: true,
                entries: vec![entry("engine.a", false)],
            },
            EnginePatch {
                engine_id: "gone".to_owned(),
                registered: false,
                entries: Vec::new(),
            },
        ],
        &definitions,
    );
    let details: Vec<&str> = checks.iter().filter_map(|check| check.detail.as_deref()).collect();
    assert_eq!(
        details,
        [
            "unknown setting `engine.b`",
            "setting `engine.a` does not apply to engine `engine`",
            "engine defaults reference unregistered engine `gone`",
        ]
    );
    let checks = inspect_setting_values(&vec![entry("engine.a", true)], &Vec::new(), &definitions);
    assert_eq!(checks.len(), 1);
    assert_eq!(checks[0].status, DoctorStatus::Pass);
    let checks = inspect_setting_values(&Vec::new(), &Vec::new(), &Err("twice".to_owned()));
    assert_eq!(checks[0].code, "settings.definitions");
}

#[test]
fn stores_and_registries_are_counted() {
    assert_eq!(
        inspect_profiles("profiles.json", &StoreLook::Valid(0)).status,
        DoctorStatus::Warning
    );
    assert_eq!(
        inspect_profiles("profiles.json", &StoreLook::Valid(2)).message,
        "2 Model Profile(s) are structurally valid."
    );
    assert_eq!(
        inspect_profiles("profiles.json", &StoreLook::Invalid("bad".to_owned())).status,
        DoctorStatus::Fail
    );
    assert_eq!(inspect_registry(&Ok(3)).message, "3 engine adapters registered.");
    assert_eq!(inspect_registry(&Err("none".to_owned())).status, DoctorStatus::Fail);
}

#[test]
fn adapters_are_checked_by_their_probe() {
    let look = |probe: Result<EngineProbe, String>| {
        inspect_engine_adapter(&AdapterLook {
            identity: EngineIdentity {
                id: "q27".to_owned(),
                display_name: "q27".to_owned(),
            },
            probe,
        })
    };
    let probe = |installation: InstallationState, healthy: bool| {
        Ok(EngineProbe { installation, healthy, detail: "v1".to_owned() })
    };
    let installed = || InstallationState::Installed {
        installation: EngineInstallation {
            binary_path: "/opt/q27".to_owned(),
            version: None,
            revision: None,
        },
    };
    assert_eq!(look(probe(installed(), true)).detail.as_deref(), Some("/opt/q27 (v1)"));
    assert_eq!(look(probe(installed(), false)).detail.as_deref(), Some("/opt/q27: v1"));
    assert_eq!(look(probe(InstallationState::NotInstalled, false)).status, DoctorStatus::Pass);
    let invalid = InstallationState::Invalid { reason: "missing".to_owned() };
    assert_eq!(look(probe(invalid, false)).status, DoctorStatus::Warning);
    assert_eq!(look(Err("boom".to_owned())).status, DoctorStatus::Fail);
    assert_eq!(look(Err("boom".to_owned())).code, "engine.adapter.q27");
}

#[test]
fn model_directories_are_checked() {
    let look = |state: ModelPathState| ModelPathLook { path: "/models".to_owned(), state };
    let checks = inspect_models(
        &vec![
            look(ModelPathState::Directory),
            look(ModelPathState::NotDirectory),
            look(ModelPathState::Missing),
            look(ModelPathState::Inaccessible("denied".to_owned())),
        ],
        &vec!["rejected".to_owned()],
        0,
    );
    let codes: Vec<&str> = checks.iter().map(|check| check.code.as_str()).collect();
    assert_eq!(
        codes,
        [
            "models.path",
            "models.path_invalid",
            "models.path_missing",
            "models.path_inaccessible",
            "models.registry_warning",
            "models.none",
        ]
    );
    assert_eq!(skip_models().remediation, [MODELS_REMEDIATION]);
    let checks = inspect_models(&Vec::new(), &Vec::new(), 7);
    assert_eq!(checks[0].message, "7 local model artifact(s) were discovered.");
}

#[test]
fn an_address_is_tried_only_where_no_server_runs() {
    assert!(tries_bind(&ControlLook::Stopped));
    assert!(!tries_bind(&ControlLook::Unverified("odd".to_owned())));
    let bind = |error: Option<String>| Some(BindLook { address: "127.0.0.1:1".to_owned(), error });
    let verified = ControlLook::Verified { lifecycle: BackendLifecycle::Running, failure: None };
    let checks = inspect_control_and_bind(&verified, &bind(None));
    assert_eq!(checks[0].detail.as_deref(), Some("Backend lifecycle: Running."));
    assert_eq!(
        checks[1].message,
        "Configured address 127.0.0.1:1 is owned by the verified Norted Server."
    );
    let checks = inspect_control_and_bind(&ControlLook::Stopped, &bind(Some("in use".to_owned())));
    assert_eq!(checks[1].code, "network.bind_unavailable");
    let checks = inspect_control_and_bind(&ControlLook::Stopped, &bind(None));
    assert_eq!(checks[1].status, DoctorStatus::Pass);
    let failed = ControlLook::Verified {
        lifecycle: BackendLifecycle::Failed,
        failure: Some("crashed".to_owned()),
    };
    assert_eq!(inspect_control_and_bind(&failed, &None)[0].code, "control.backend_failed");
    let unknown = ControlLook::Unknown("odd".to_owned());
    assert_eq!(inspect_control_and_bind(&unknown, &bind(None)).len(), 1);
    let unverified = ControlLook::Unverified("odd".to_owned());
    assert_eq!(inspect_control_and_bind(&unverified, &bind(None))[0].code, "control.unhealthy");
}

fn host(accelerators: Vec<AcceleratorFacts>) -> HostFacts {
    HostFacts {
        platform: "linux".to_owned(),
        architecture: "x86_64".to_owned(),
        accelerators,
        nvidia_gpu_absence_confirmed: true,
        observations: vec!["no device".to_owned()],
    }
}

fn cuda() -> AcceleratorFacts {
    AcceleratorFacts {
        accelerator: "cuda".to_owned(),
        name: Some("RTX".to_owned()),
        stable_id: Some("GPU-1".to_owned()),
        vram: Some("24.0 GiB".to_owned()),
        driver_version: None,
        compute_capability: Some("12.0".to_owned()),
    }
}

#[test]
fn hosts_are_described() {
    assert_eq!(
        add_basic_host_facts(&host(Vec::new())).message,
        "Host platform is linux / x86_64."
    );
    let checks = add_accelerator_facts(&host(vec![cuda()]));
    assert_eq!(checks[0].code, "host.nvidia.0");
    assert_eq!(checks[0].message, "NVIDIA GPU: RTX.");
    assert_eq!(
        checks[0].detail.as_deref(),
        Some("UUID GPU-1, 24.0 GiB VRAM, compute 12.0")
    );
    let checks = add_accelerator_facts(&host(Vec::new()));
    assert_eq!(checks[0].detail.as_deref(), Some("no device"));
    assert!(!wants_toolchain(&host(Vec::new())));
    assert!(wants_toolchain(&host(vec![cuda()])));
    let tools = source_tools();
    assert_eq!(tools.len(), 7);
    let versions: Vec<Result<String, String>> = tools
        .iter()
        .map(|tool| match tool.code.as_str() {
            "cuda_compiler" => Err("not found".to_owned()),
            _ => Ok("1.0".to_owned()),
        })
        .collect();
    let checks = inspect_source_toolchain(&host(vec![cuda()]), &versions);
    assert_eq!(checks.len(), 7);
    assert_eq!(checks[0].detail.as_deref(), Some("1.0"));
    assert_eq!(checks[1].code, "host.toolchain.cuda_compiler_missing");
    assert_eq!(
        checks[1].message,
        "CUDA compiler is unavailable at /usr/local/cuda/bin/nvcc."
    );
    assert!(inspect_source_toolchain(&host(Vec::new()), &Vec::new()).is_empty());
    assert_eq!(
        add_terminal_facts(true, false).detail.as_deref(),
        Some("stdin_tty=true, stdout_tty=false")
    );
}

#[test]
fn versions_are_the_first_line_that_a_tool_prints() {
    let answered = |stdout: &[u8], stderr: &[u8]| CommandLook::Answered {
        stdout: stdout.to_vec(),
        stderr: stderr.to_vec(),
    };
    assert_eq!(
        command_version("git", &answered(b"git version 2.45\nmore\n", b"")),
        Ok("git version 2.45".to_owned())
    );
    assert_eq!(
        command_version("nvcc", &answered(b"", b"nvcc \xff 13\n")),
        Ok("nvcc \u{fffd} 13".to_owned())
    );
    assert_eq!(
        command_version("git", &answered(b"", b"")),
        Ok("version observed".to_owned())
    );
    assert_eq!(
        command_version("git", &CommandLook::TimedOut),
        Err("`git --version` timed out".to_owned())
    );
    assert_eq!(
        command_version("git", &CommandLook::Exited("exit status: 1".to_owned())),
        Err("`git --version` exited with exit status: 1".to_owned())
    );
    assert_eq!(
        command_version("git", &CommandLook::Unavailable("no such file".to_owned())),
        Err("no such file".to_owned())
    );
}

fn profile_look(runtime: ProfileRuntimeLook) -> ProfileLook {
    ProfileLook {
        id: "chat".to_owned(),
        model_id: "model".to_owned(),
        engine_id: "q27".to_owned(),
        incompatibility: None,
        settings_fault: None,
        schema: SchemaLook::Fits,
        runtime,
    }
}

#[test]
fn profiles_need_their_model_engine_and_runtime() {
    let models = vec!["model".to_owned()];
    let engines = vec!["q27".to_owned()];
    let chosen = || ProfileRuntimeLook::Chosen {
        runtime_id: "q27-1".to_owned(),
        source: norted::backend::RuntimeSelectionSource::FormatDefault,
        notices: Vec::new(),
        fault: None,
    };
    let usable = inspect_model_profile(&profile_look(chosen()), &models, &engines);
    assert_eq!(usable.status, DoctorStatus::Pass);
    let missing = inspect_model_profile(&profile_look(chosen()), &Vec::new(), &engines);
    assert_eq!(missing.code, "model_profile.missing_model");
    assert_eq!(missing.status, DoctorStatus::Warning);
    let unregistered = inspect_model_profile(&profile_look(chosen()), &models, &Vec::new());
    assert_eq!(unregistered.code, "model_profile.missing_engine");
    let unavailable = inspect_model_profile(
        &profile_look(ProfileRuntimeLook::Unavailable("none".to_owned())),
        &models,
        &engines,
    );
    assert_eq!(unavailable.code, "model_profile.no_runtime");
    let unhealthy = inspect_model_profile(
        &profile_look(ProfileRuntimeLook::Unhealthy("bad probe".to_owned())),
        &models,
        &engines,
    );
    assert_eq!(unhealthy.status, DoctorStatus::Fail);
    let mut refused = profile_look(chosen());
    refused.schema = SchemaLook::Refuses("out of range".to_owned());
    let refused = inspect_model_profile(&refused, &models, &engines);
    assert_eq!(refused.code, "model_profile.settings_invalid");
    let mut incompatible = profile_look(chosen());
    incompatible.incompatibility = Some("wrong format".to_owned());
    let incompatible = inspect_model_profile(&incompatible, &models, &engines);
    assert_eq!(incompatible.detail.as_deref(), Some("wrong format"));
}

fn findings() -> RuntimeFindings {
    RuntimeFindings {
        store_error: None,
        store_issues: Vec::new(),
        adapter_warnings: Vec::new(),
        installed: Vec::new(),
        selections: Some(RuntimeSelections::new()),
        selections_error: None,
    }
}

#[test]
fn runtimes_are_checked() {
    let checks = inspect_runtimes(&findings(), &Vec::new());
    assert_eq!(checks[0].message, "Managed runtime store contains 0 valid runtime(s).");
    assert_eq!(checks[1].code, "runtime.selections_schema");
    let mut broken = findings();
    broken.store_error = Some("unreadable".to_owned());
    let checks = inspect_runtimes(&broken, &Vec::new());
    assert!(checks.iter().any(|check| check.status == DoctorStatus::Fail));
    let mut selected = findings();
    let mut selections = RuntimeSelections::new();
    selections.format_defaults.insert("gguf".to_owned(), "gone".to_owned());
    selected.selections = Some(selections);
    let checks = inspect_runtimes(&selected, &Vec::new());
    assert!(checks.iter().any(|check| check.message
        == "The GGUF default selection references missing runtime `gone`."));
    assert_eq!(write_compatibility(&RuntimeCompatibility::Recommended), "Recommended");
    assert_eq!(
        write_compatibility(&RuntimeCompatibility::NeedsAttention("old \"driver\"".to_owned())),
        "NeedsAttention(\"old \\\"driver\\\"\")"
    );
}

fn directory(path: &str) -> DirectoryFacts {
    DirectoryFacts { path: path.to_owned(), look: DirectoryLook::Creatable }
}

fn surroundings() -> SurroundingFacts {
    SurroundingFacts {
        host: host(Vec::new()),
        tool_versions: Vec::new(),
        stdin_tty: false,
        stdout_tty: false,
    }
}

fn fresh() -> DoctorFacts {
    DoctorFacts {
        config_file: "config/config.toml".to_owned(),
        directories: ServerDirectories {
            config: directory("config"),
            data: directory("data"),
            state: directory("state"),
            cache: directory("cache"),
            logs: directory("logs"),
            runtimes: directory("data/runtimes"),
            runtime_cache: directory("cache/runtime-packs"),
        },
        config: ConfigLook::Absent,
        key_store_path: "data/keys.json".to_owned(),
        key_store: StoreLook::Valid(0),
        auth: Some(Ok(auth(true, false))),
        settings: SettingsFacts {
            path: "data/settings.json".to_owned(),
            is_there: false,
            error: None,
            globals: Vec::new(),
            engines: Vec::new(),
            definitions: Ok(Vec::new()),
        },
        profiles_path: "data/model-profiles.json".to_owned(),
        profiles: StoreLook::Valid(0),
        engines: EngineFacts {
            registered: Ok(3),
            ids: Vec::new(),
            adapters: Vec::new(),
        },
        models: ModelFacts {
            paths: Vec::new(),
            warnings: Vec::new(),
            ids: Vec::new(),
            inspections: Vec::new(),
        },
        runtimes: Ok(findings()),
        profile_looks: Vec::new(),
        control: ControlLook::Stopped,
        bind: Some(BindLook { address: "127.0.0.1:8080".to_owned(), error: None }),
        surroundings: surroundings(),
    }
}

#[test]
fn a_fresh_installation_has_no_failures() {
    let report = run_with_paths(&fresh());
    assert!(!report.has_failures());
    assert_eq!(report.status, DoctorStatus::Warning);
    let codes: Vec<&str> = report.checks.iter().map(|check| check.code.as_str()).collect();
    assert!(codes.contains(&"config.file"));
    assert!(codes.contains(&"models.none"));
    assert!(codes.contains(&"network.bind"));
    assert_eq!(codes.last(), Some(&"terminal.mode"));
    assert_eq!(
        report.summary.passes + report.summary.problems,
        report.checks.len()
    );
}

#[test]
fn an_invalid_configuration_skips_what_depends_on_it() {
    let mut facts = fresh();
    facts.config = ConfigLook::Unreadable("denied".to_owned());
    facts.auth = None;
    let report = run_with_paths(&facts);
    assert!(report.has_failures());
    let codes: Vec<&str> = report.checks.iter().map(|check| check.code.as_str()).collect();
    assert!(codes.contains(&"auth.skipped"));
    assert!(codes.contains(&"models.skipped"));
    let report = run_without_paths("no home directory", &surroundings());
    assert!(report.has_failures());
    assert!(report.checks.iter().any(|check| check
        .detail
        .as_deref()
        .is_some_and(|detail| detail.contains("no home directory"))));
}

#[test]
fn store_errors_tell_what_is_wrong() {
    let (path, detail) = ("/store/one".to_owned(), "no version".to_owned());
    let manifest = RuntimeStoreError::InvalidManifest { path: path.clone(), message: detail.clone() };
    let issue = store_issue(&manifest);
    assert_eq!(issue.kind, RuntimeStoreIssueKind::InvalidManifest);
    assert_eq!(issue.message, manifest.message());
    let conflict = RuntimeStoreError::ProvenanceConflict { runtime_id: "one".to_owned(), detail };
    assert_eq!(store_issue(&conflict).kind, RuntimeStoreIssueKind::ProvenanceConflict);
    let escape = RuntimeStoreError::UnsafePath(path.clone());
    assert_eq!(store_issue(&escape).kind, RuntimeStoreIssueKind::UnsafePath);
    let other = RuntimeStoreError::Io { path, source: "denied".to_owned() };
    assert_eq!(store_issue(&other).kind, RuntimeStoreIssueKind::Io);
}
