use norted::cli::{Cli, Command};
use norted::commands::{
    add_bound_identity_ids, assign_settings, change_profile, check_deletable, command_of,
    defaults_scope, doctor_succeeds, locate_runtime, parse_known_setting_ids, plan_tui,
    recover_tui, report_insecure_remote, require_bound_model, require_compatible_engine,
    require_model, set_engine, set_model, validate_default_scope, validate_patch_for_engine,
    BoundModel, CommandError, DefaultsScope, ProfileChange, ProfileRecord, RuntimePlace,
    ScopedSetting, SettingsState, TuiStart,
};
use norted::doctor::server::PublicAuthStatus;
use norted::doctor::{finding, pass, DoctorReport, DoctorStatus};
use norted::engines::{
    EngineIdentity, EngineInstallation, EngineProbe, EngineStatus, InstallationState,
};
use norted::inference::SettingValue;
use norted::lifecycle::{BackendLifecycle, ModelRole, RuntimeNotice, RuntimeNoticeLevel};
use norted::output::profiles::optional_value;
use norted::output::runtimes::{
    effective_settings, profile_compatibility, runtime_removed, runtime_selections,
    settings_mutation, settings_schema, SettingRow,
};
use norted::output::{
    api_key_created, api_key_revoked, api_keys, auth_status, comma_list, control_operation,
    doctor, engines, models, status, truncate, warn, yes_no, ApiKeySummary, ControlSummary,
    DoctorCheck, ModelRow, ModelsShown, ServerShown,
};
use norted::runtimes::RuntimeCompatibility;
use norted::selections::RuntimeSelections;
use norted::table::Table;
use norted::updates::RuntimeUpdatePreference;

fn record(engine: &str) -> ProfileRecord {
    let mut overrides: Table<SettingValue> = Table::new();
    overrides.insert("top_k".to_owned(), SettingValue::UnsignedInteger(40));
    overrides.insert("q27.kv".to_owned(), SettingValue::Choice("fp8".to_owned()));
    ProfileRecord {
        id: "chat".to_owned(),
        display_name: "Chat".to_owned(),
        model_id: "model".to_owned(),
        engine_id: engine.to_owned(),
        role: ModelRole::Primary,
        overrides,
    }
}

fn profiles() -> Table<ProfileRecord> {
    let mut table: Table<ProfileRecord> = Table::new();
    table.insert("chat".to_owned(), record("q27"));
    table
}

fn bound(known: bool) -> BoundModel {
    BoundModel {
        id: "other".to_owned(),
        format: "gguf".to_owned(),
        known,
    }
}

fn scoped(id: &str, namespaced: bool, applies: bool) -> ScopedSetting {
    ScopedSetting { id: id.to_owned(), namespaced, applies }
}

#[test]
fn profiles_are_changed_one_at_a_time() {
    let mut table = profiles();
    change_profile(&mut table, "chat", &ProfileChange::SetModel("new".to_owned())).ok().expect("set");
    change_profile(&mut table, "chat", &ProfileChange::SetRole(ModelRole::Auxiliary)).ok().expect("set");
    assert_eq!(table.get("chat").expect("profile").model_id, "new");
    assert_eq!(table.get("chat").expect("profile").role, ModelRole::Auxiliary);
    let mut patch: Table<SettingValue> = Table::new();
    patch.insert("min_p".to_owned(), SettingValue::Boolean(true));
    change_profile(&mut table, "chat", &ProfileChange::Assign(patch)).ok().expect("assigned");
    assert_eq!(table.get("chat").expect("profile").overrides.len(), 3);
    change_profile(&mut table, "chat", &ProfileChange::Unset(vec!["min_p".to_owned()]))
        .ok()
        .expect("unset");
    assert_eq!(table.get("chat").expect("profile").overrides.len(), 2);
    let missing = change_profile(&mut table, "gone", &ProfileChange::SetRole(ModelRole::Primary));
    assert!(matches!(missing, Err(CommandError::ModelProfileNotFound(id)) if id == "gone"));
}

#[test]
fn an_engine_keeps_the_settings_that_it_takes() {
    let mut table = profiles();
    let known = bound(true);
    set_engine(&mut table, "chat", &known, "llama.cpp", Some(true), vec!["top_k".to_owned()])
        .ok()
        .expect("set");
    let profile = table.get("chat").expect("profile");
    assert_eq!(profile.engine_id, "llama.cpp");
    assert!(profile.overrides.contains("top_k"));
    assert!(!profile.overrides.contains("q27.kv"));
    let refused = set_engine(&mut table, "chat", &known, "odd", None, Vec::new());
    assert!(matches!(refused, Err(CommandError::Message(text)) if text == "unknown engine `odd`"));
    let refused = set_engine(&mut table, "chat", &known, "q27", Some(false), Vec::new());
    assert!(matches!(refused, Err(CommandError::Message(text))
        if text == "engine `q27` is incompatible with model `other` (gguf)"));
    let refused = set_engine(&mut table, "gone", &known, "q27", Some(true), Vec::new());
    assert!(matches!(refused, Err(CommandError::ModelProfileNotFound(_))));
}

#[test]
fn a_model_is_bound_only_where_it_fits() {
    let mut table = profiles();
    assert!(set_model(&mut table, "chat", &bound(true), Some(true), &None).is_ok());
    assert_eq!(table.get("chat").expect("profile").model_id, "other");
    let refused = set_model(&mut table, "chat", &bound(false), Some(true), &None);
    assert!(matches!(refused, Err(CommandError::Message(text))
        if text == "model `other` does not exist in the discovered artifact registry"));
    let refused = set_model(&mut table, "chat", &bound(true), Some(true), &Some("too low".to_owned()));
    assert!(matches!(refused, Err(CommandError::InvalidSetting(text)) if text == "too low"));
}

#[test]
fn settings_are_assigned_in_their_scope() {
    let mut table = profiles();
    let patch = || {
        let mut patch: Table<SettingValue> = Table::new();
        patch.insert("llama.cpp.x".to_owned(), SettingValue::Boolean(true));
        patch
    };
    let foreign = vec![scoped("llama.cpp.x", true, false)];
    let refused = assign_settings(&mut table, "chat", patch(), &foreign, &bound(true), &None);
    assert!(matches!(refused, Err(CommandError::WrongEngineScope { setting_id, engine_id })
        if setting_id == "llama.cpp.x" && engine_id == "q27"));
    let own = vec![scoped("llama.cpp.x", true, true)];
    assert!(assign_settings(&mut table, "chat", patch(), &own, &bound(true), &None).is_ok());
    assert!(table.get("chat").expect("profile").overrides.contains("llama.cpp.x"));
    assert!(validate_patch_for_engine(&own, "llama.cpp").is_ok());
    assert!(validate_patch_for_engine(&foreign, "q27").is_err());
}

#[test]
fn defaults_are_read_back_from_their_scope() {
    let mut state = SettingsState {
        global_defaults: Table::new(),
        engine_defaults: Table::new(),
    };
    let engine = DefaultsScope::Engine("q27".to_owned());
    let mut patch: Table<SettingValue> = Table::new();
    patch.insert("q27.kv".to_owned(), SettingValue::Choice("fp8".to_owned()));
    state.assign(&engine, &patch);
    assert!(state.global_defaults.get("q27.kv").is_none());
    assert!(state.engine_defaults.get("q27").expect("engine").contains("q27.kv"));
    state.unset(&engine, &vec!["q27.kv".to_owned()]);
    assert_eq!(state.engine_defaults.len(), 0);
    assert!(matches!(defaults_scope(true, None), Some(DefaultsScope::Global)));
    assert!(matches!(
        defaults_scope(false, Some("q27".to_owned())),
        Some(DefaultsScope::Engine(id)) if id == "q27"
    ));
    assert!(defaults_scope(false, None).is_none());
    assert!(!engine.label().is_empty());
    let refused = validate_default_scope(
        &DefaultsScope::Global,
        true,
        &vec![scoped("q27.kv", true, true)],
    );
    assert!(matches!(refused, Err(CommandError::InvalidGlobalSetting(id)) if id == "q27.kv"));
    assert!(matches!(
        validate_default_scope(&engine, false, &Vec::new()),
        Err(CommandError::Message(text)) if text == "unknown engine `q27`"
    ));
    assert!(validate_default_scope(&engine, true, &vec![scoped("q27.kv", true, true)]).is_ok());
}

#[test]
fn digests_go_with_their_files() {
    let mut ids = vec!["q27.template_path".to_owned(), "top_k".to_owned()];
    add_bound_identity_ids(&mut ids);
    assert_eq!(ids, ["q27.template_path", "top_k", "q27.template_sha256"]);
    let parsed = vec![Ok("top_k".to_owned())];
    assert_eq!(
        parse_known_setting_ids(&parsed, &vec!["top_k".to_owned()]).ok().expect("known"),
        ["top_k"]
    );
    assert!(matches!(
        parse_known_setting_ids(&parsed, &Vec::new()),
        Err(CommandError::UnknownSetting(id)) if id == "top_k"
    ));
    assert!(matches!(
        parse_known_setting_ids(&vec![Err("bad name".to_owned())], &Vec::new()),
        Err(CommandError::InvalidSetting(text)) if text == "bad name"
    ));
}

#[test]
fn requirements_name_what_is_missing() {
    assert!(check_deletable("chat", &None).is_ok());
    assert!(check_deletable("chat", &Some("chat".to_owned())).is_err());
    assert!(check_deletable("chat", &Some("other".to_owned())).is_ok());
    assert!(require_model("m", true).is_ok());
    assert!(require_model("m", false).is_err());
    assert!(require_bound_model("chat", "m", true).is_ok());
    assert!(require_bound_model("chat", "m", false).is_err());
    assert!(require_compatible_engine("q27", Some(true), "m", "q27").is_ok());
    assert!(require_compatible_engine("q27", Some(false), "m", "gguf").is_err());
    assert!(require_compatible_engine("odd", None, "m", "gguf").is_err());
    assert!(report_insecure_remote("0.0.0.0:1", true).is_some_and(|text| text.contains("0.0.0.0:1")));
    assert!(report_insecure_remote("127.0.0.1:1", false).is_none());
}

#[test]
fn commands_default_to_the_terminal() {
    assert!(matches!(command_of(Cli { json: false, command: None }), Command::Tui));
    assert!(matches!(
        command_of(Cli { json: true, command: Some(Command::Status) }),
        Command::Status
    ));
    let healthy = DoctorReport::new(vec![pass("a", "b", "c", None)]);
    assert!(doctor_succeeds(&healthy));
    let failing = DoctorReport::new(vec![finding("a", "b", DoctorStatus::Fail, "c", None, &["d"])]);
    assert!(!doctor_succeeds(&failing));
    assert_eq!(plan_tui(true), TuiStart::Attach);
    assert_eq!(plan_tui(false), TuiStart::Start);
    assert!(matches!(recover_tui(true, "refused".to_owned()), Ok(TuiStart::Attach)));
    assert!(matches!(recover_tui(false, "refused".to_owned()), Err(text) if text.contains("refused")));
    let installed = vec!["one".to_owned()];
    let available = vec!["one".to_owned(), "two".to_owned()];
    assert!(matches!(locate_runtime("one", &installed, &available), Ok(RuntimePlace::Installed(0))));
    assert!(matches!(locate_runtime("two", &installed, &available), Ok(RuntimePlace::Available(1))));
    assert!(locate_runtime("three", &installed, &available).is_err());
}

fn auth(insecure_remote: bool) -> PublicAuthStatus {
    PublicAuthStatus {
        bind: "127.0.0.1:8080".to_owned(),
        loopback: true,
        configured_mode: "auto".to_owned(),
        effective_mode: "off".to_owned(),
        active_key_count: 2,
        bind_allowed: true,
        insecure_remote,
    }
}

fn control(lifecycle: BackendLifecycle) -> ControlSummary {
    ControlSummary {
        available_engine_count: 3,
        installed_engine_count: 1,
        running_engine_count: 1,
        lifecycle,
        model_id: Some("chat".to_owned()),
        engine_id: Some("q27".to_owned()),
        runtime_id: None,
        runtime_version: Some("0.10.0".to_owned()),
        runtime_variant: Some("w12".to_owned()),
        runtime_executable_sha256: None,
        recent_events: vec![
            RuntimeNotice {
                timestamp_unix: 1,
                level: RuntimeNoticeLevel::Info,
                message: "loaded".to_owned(),
            },
            RuntimeNotice {
                timestamp_unix: 2,
                level: RuntimeNoticeLevel::Warning,
                message: "old runtime".to_owned(),
            },
        ],
    }
}

#[test]
fn the_status_is_shown() {
    let lines = status(&ServerShown {
        label: "running".to_owned(),
        observation: None,
        endpoint: Some("http://127.0.0.1:8080".to_owned()),
        auth: auth(true),
        models: ModelsShown::Discovered(4),
        control: Some(control(BackendLifecycle::Running)),
    });
    assert_eq!(lines[0], "Norted Server");
    assert_eq!(lines[1], "  Server:          running");
    assert!(lines.contains(&"  Active API keys: 2".to_owned()));
    assert!(lines.contains(
        &"  SECURITY:        WARNING: remote authentication is disabled".to_owned()
    ));
    assert!(lines.contains(&"  Models:          4 discovered".to_owned()));
    assert!(lines.contains(
        &"  Adapters:        3 registered, 1 external binaries, 1 backend running".to_owned()
    ));
    let (lines, events) = control_operation("load", &control(BackendLifecycle::Running));
    assert_eq!(lines[0], "Load complete.");
    assert!(lines.contains(&"  Version: 0.10.0 / w12".to_owned()));
    assert_eq!(events, ["  Warning: old runtime"]);
}

#[test]
fn tables_are_aligned() {
    let row = ModelRow {
        id: "chat".to_owned(),
        format: "gguf".to_owned(),
        size: "1.0 GiB".to_owned(),
        path: "/m/chat.gguf".to_owned(),
    };
    let lines = models(&vec![row], true, "config.toml");
    assert_eq!(
        lines[1],
        format!("{:<36} {:<7} {:>12}  {}", "chat", "gguf", "1.0 GiB", "/m/chat.gguf")
    );
    let empty = models(&Vec::new(), false, "config.toml");
    assert_eq!(
        empty,
        [
            "No model artifacts discovered.",
            "Configure one or more search directories in config.toml under [models].paths.",
        ]
    );
    let keys = api_keys(&vec![ApiKeySummary {
        key_id: "id".to_owned(),
        name: "laptop".to_owned(),
        display_prefix: "nk_abc".to_owned(),
        active: false,
    }]);
    assert_eq!(
        keys[1],
        format!("{:<38} {:<24} {:<20} {}", "id", "laptop", "nk_abc...", "revoked")
    );
    assert_eq!(api_keys(&Vec::new()), ["No Norted API keys exist."]);
    assert!(api_key_created("id", "laptop", "shown").iter().any(|line| line.contains("shown")));
    assert!(api_key_revoked("id", "laptop").iter().any(|line| line.contains("id")));
    assert_eq!(warn(&vec!["careful".to_owned()]), ["Warning: careful"]);
    assert_eq!(comma_list(&Vec::new()), "none");
    assert_eq!(comma_list(&vec!["a".to_owned(), "b".to_owned()]), "a, b");
    assert_eq!((yes_no(true), yes_no(false)), ("yes", "no"));
    let (lines, _) = auth_status(&auth(false));
    assert!(lines.contains(&"  Exposure:         loopback".to_owned()));
}

#[test]
fn engines_are_listed() {
    let lines = engines(
        "running Server",
        &vec![EngineStatus {
            identity: EngineIdentity { id: "q27".to_owned(), display_name: "q27".to_owned() },
            probe: EngineProbe {
                installation: InstallationState::Installed {
                    installation: EngineInstallation {
                        binary_path: "/opt/q27".to_owned(),
                        version: None,
                        revision: Some("abc".to_owned()),
                    },
                },
                healthy: false,
                detail: "no gpu".to_owned(),
            },
        }],
    );
    assert!(lines.contains(&"  q27: unhealthy".to_owned()));
    assert!(lines.contains(&"    Version: unknown".to_owned()));
    assert!(lines.contains(&"    Revision: abc".to_owned()));
}

#[test]
fn checks_are_counted_in_the_old_report() {
    let check = |status: DoctorStatus, fatal: bool| DoctorCheck {
        status,
        name: "paths".to_owned(),
        detail: "fine".to_owned(),
        fatal,
    };
    let lines = doctor(&vec![
        check(DoctorStatus::Pass, false),
        check(DoctorStatus::Warning, false),
        check(DoctorStatus::Fail, true),
    ]);
    assert!(lines.contains(&format!("  {:<4}  {:<20} {}", "PASS", "paths", "fine")));
    assert!(lines.last().is_some_and(|line| line.contains('1')));
}

#[test]
fn truncated_texts_fit() {
    assert_eq!(truncate("short", 12), "short");
    let cut = truncate("selected: gguf, chat", 12);
    assert_eq!(cut.chars().count(), 12);
    assert_eq!(optional_value(Some(7)), "7");
}

#[test]
fn settings_and_selections_are_shown() {
    let row = |supported: bool, value: Option<&str>| SettingRow {
        id: "q27.kv".to_owned(),
        label: "KV mode".to_owned(),
        supported,
        unsupported_reason: Some("too old".to_owned()),
        value: value.map(|text| text.to_owned()),
        source: "profile".to_owned(),
    };
    let lines = effective_settings(
        "runtime",
        "q27",
        &None,
        &vec![row(true, None), row(false, Some("fp8"))],
    );
    assert_eq!(lines[2], "Profile: none");
    assert_eq!(lines[4], format!("{:<38} {:<20} {}", "q27.kv", "<upstream default>", "upstream"));
    assert!(lines[5].ends_with("profile [incompatible: too old]"));
    let lines = settings_schema("q27", &None, &vec![row(false, None)]);
    assert!(lines.iter().any(|line| line.contains("unsupported: too old")));
    let mut selections = RuntimeSelections::new();
    selections.select_format("gguf", "one", RuntimeUpdatePreference::Stable);
    selections.select_model("chat", "two", RuntimeUpdatePreference::Stable);
    assert_eq!(
        runtime_selections("update", &selections),
        [
            "Runtime selection update complete.",
            "  GGUF default: one",
            "  Model chat: two",
        ]
    );
    assert!(runtime_removed("one").iter().any(|line| line.contains("one")));
    assert!(settings_mutation("set", "Global").iter().any(|line| line.contains("Global")));
    let lines = profile_compatibility(
        ("chat", "gguf"),
        ("profile", "Chat"),
        "one",
        &RuntimeCompatibility::Incompatible("no gpu".to_owned()),
    );
    assert!(lines.iter().any(|line| line.contains("Incompatible(\"no gpu\")")));
}
