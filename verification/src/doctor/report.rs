//! The whole report, from what was found.
use vstd::prelude::*;
use vstd::string::*;

use crate::duplicate::{optional, views};
use crate::text::cat2;

use super::profiles::{inspect_model_profiles, profile_checks, ProfileLook};
use super::runtimes::{
    inspect_model_runtime_selections, inspect_runtimes, model_runtime_checks, runtime_checks,
    ModelInspection, RuntimeFindings,
};
use super::server::{
    accelerator_checks, adapter_checks, add_accelerator_facts, add_basic_host_facts,
    add_terminal_facts, auth_skipped, bind_checks, builds_runtimes, config_checks, control_check,
    directory_check, directory_finding, has_config, inspect_auth_store, inspect_config,
    inspect_control_and_bind, inspect_engine_adapters, inspect_models, inspect_profiles,
    inspect_registry, inspect_server_auth, inspect_setting_values, inspect_settings,
    inspect_source_toolchain, key_store_check, list1, model_checks, models_skipped,
    platform_check, profiles_check, registry_check, server_auth_checks, setting_checks,
    settings_check, skip_auth, skip_models, terminal_check, toolchain_checks, tools,
    AdapterLook, BindLook, ConfigLook, ControlLook, DirectoryLook, EnginePatch, HostFacts,
    ModelPathLook, PatchEntry, PublicAuthStatus, StoreLook,
};
use super::{
    extend, flag, flagged, pass, passed, reported, DoctorFinding, DoctorReport, DoctorStatus,
    FindingView, RUNTIMES_REMEDIATION,
};

verus! {

/// A directory and what is seen of it.
#[derive(Debug)]
pub struct DirectoryFacts {
    pub path: String,
    pub look: DirectoryLook,
}

/// The directories of the server.
#[derive(Debug)]
pub struct ServerDirectories {
    pub config: DirectoryFacts,
    pub data: DirectoryFacts,
    pub state: DirectoryFacts,
    pub cache: DirectoryFacts,
    pub logs: DirectoryFacts,
    pub runtimes: DirectoryFacts,
    pub runtime_cache: DirectoryFacts,
}

/// What is found of the host and of the terminal.
#[derive(Debug)]
pub struct SurroundingFacts {
    pub host: HostFacts,
    pub tool_versions: Vec<Result<String, String>>,
    pub stdin_tty: bool,
    pub stdout_tty: bool,
}

/// What is found of the settings.
#[derive(Debug)]
pub struct SettingsFacts {
    pub path: String,
    pub is_there: bool,
    pub error: Option<String>,
    pub globals: Vec<PatchEntry>,
    pub engines: Vec<EnginePatch>,
    pub definitions: Result<Vec<String>, String>,
}

/// What is found of the engines.
#[derive(Debug)]
pub struct EngineFacts {
    pub registered: Result<u64, String>,
    pub ids: Vec<String>,
    pub adapters: Vec<AdapterLook>,
}

/// What is found of the models.
#[derive(Debug)]
pub struct ModelFacts {
    pub paths: Vec<ModelPathLook>,
    pub warnings: Vec<String>,
    pub ids: Vec<String>,
    pub inspections: Vec<ModelInspection>,
}

/// All that is found. What cannot be found because something else is missing is left empty, and is not
/// reported.
#[derive(Debug)]
pub struct DoctorFacts {
    pub config_file: String,
    pub directories: ServerDirectories,
    pub config: ConfigLook,
    pub key_store_path: String,
    pub key_store: StoreLook,
    pub auth: Option<Result<PublicAuthStatus, String>>,
    pub settings: SettingsFacts,
    pub profiles_path: String,
    pub profiles: StoreLook,
    pub engines: EngineFacts,
    pub models: ModelFacts,
    pub runtimes: Result<RuntimeFindings, String>,
    pub profile_looks: Vec<ProfileLook>,
    pub control: ControlLook,
    pub bind: Option<BindLook>,
    pub surroundings: SurroundingFacts,
}

impl SurroundingFacts {
    /// Whether each tool was asked for its version, where the tools matter.
    pub open spec fn complete(self) -> bool {
        builds_runtimes(self.host) ==> self.tool_versions@.len() == tools().len()
    }
}

pub open spec fn surrounding_checks(facts: SurroundingFacts) -> Seq<FindingView> {
    seq![platform_check(facts.host)] + accelerator_checks(facts.host) + toolchain_checks(
        facts.host,
        facts.tool_versions@,
    ) + seq![terminal_check(facts.stdin_tty, facts.stdout_tty)]
}

fn inspect_surroundings(facts: &SurroundingFacts) -> (result: Vec<DoctorFinding>)
    requires
        facts.complete(),
    ensures
        views(result@) == surrounding_checks(*facts),
{
    let mut checks = list1(add_basic_host_facts(&facts.host));
    extend(&mut checks, add_accelerator_facts(&facts.host));
    extend(&mut checks, inspect_source_toolchain(&facts.host, &facts.tool_versions));
    extend(&mut checks, list1(add_terminal_facts(facts.stdin_tty, facts.stdout_tty)));
    checks
}

pub open spec fn directory_checks(list: ServerDirectories) -> Seq<FindingView> {
    seq![
        directory_check(
            "paths.config"@,
            "Configuration directory"@,
            list.config.path@,
            list.config.look,
        ),
        directory_check("paths.data"@, "Data directory"@, list.data.path@, list.data.look),
        directory_check("paths.state"@, "State directory"@, list.state.path@, list.state.look),
        directory_check("paths.cache"@, "Cache directory"@, list.cache.path@, list.cache.look),
        directory_check("paths.logs"@, "Log directory"@, list.logs.path@, list.logs.look),
        directory_check(
            "paths.runtimes"@,
            "Runtime store"@,
            list.runtimes.path@,
            list.runtimes.look,
        ),
        directory_check(
            "paths.runtime_cache"@,
            "Runtime cache directory"@,
            list.runtime_cache.path@,
            list.runtime_cache.look,
        ),
    ]
}

fn look_at(code: &str, label: &str, facts: &DirectoryFacts) -> (result: DoctorFinding)
    ensures
        result@ == directory_check(code@, label@, facts.path@, facts.look),
{
    directory_finding(code, label, facts.path.as_str(), &facts.look)
}

fn inspect_directories(list: &ServerDirectories) -> (result: Vec<DoctorFinding>)
    ensures
        views(result@) == directory_checks(*list),
{
    let checks = vec![
        look_at("paths.config", "Configuration directory", &list.config),
        look_at("paths.data", "Data directory", &list.data),
        look_at("paths.state", "State directory", &list.state),
        look_at("paths.cache", "Cache directory", &list.cache),
        look_at("paths.logs", "Log directory", &list.logs),
        look_at("paths.runtimes", "Runtime store", &list.runtimes),
        look_at("paths.runtime_cache", "Runtime cache directory", &list.runtime_cache),
    ];
    proof {
        assert(views(checks@) =~= directory_checks(*list));
    }
    checks
}

impl DoctorFacts {
    pub open spec fn configured(self) -> bool {
        has_config(self.config)
    }

    pub open spec fn has_settings(self) -> bool {
        self.settings.error is None
    }

    pub open spec fn has_engines(self) -> bool {
        self.engines.registered is Ok
    }

    /// The authentication is judged by the configuration and by the keys, where both can be read.
    pub open spec fn auth_checks(self) -> Seq<FindingView> {
        if !self.configured() {
            seq![auth_skipped()]
        } else if self.key_store is Valid && self.auth is Some {
            server_auth_checks(self.auth->0)
        } else {
            Seq::empty()
        }
    }

    pub open spec fn value_checks(self) -> Seq<FindingView> {
        if self.has_settings() && self.has_engines() {
            setting_checks(
                self.settings.globals@,
                self.settings.engines@,
                self.settings.definitions,
            )
        } else {
            Seq::empty()
        }
    }

    pub open spec fn engine_checks(self) -> Seq<FindingView> {
        if self.has_engines() {
            adapter_checks(self.engines.adapters@)
        } else {
            Seq::empty()
        }
    }

    pub open spec fn known_models(self) -> Seq<Seq<char>> {
        if self.configured() {
            views(self.models.ids@)
        } else {
            Seq::empty()
        }
    }

    pub open spec fn model_checks(self) -> Seq<FindingView> {
        if self.configured() {
            model_checks(
                self.models.paths@,
                views(self.models.warnings@),
                self.models.ids@.len() as u64,
            )
        } else {
            seq![models_skipped()]
        }
    }

    pub open spec fn runtime_checks(self) -> Seq<FindingView> {
        if !self.has_engines() {
            Seq::empty()
        } else {
            match self.runtimes {
                Err(error) => seq![
                    flagged(
                        "runtime.inspection_unavailable"@,
                        "runtimes"@,
                        DoctorStatus::Fail,
                        "Managed runtime inspection could not be initialized."@,
                        Some(error@),
                        RUNTIMES_REMEDIATION@,
                    ),
                ],
                Ok(found) => runtime_checks(found, self.known_models())
                    + if !self.configured() || found.selections is None || found.store_error
                    is Some {
                    Seq::empty()
                } else {
                    model_runtime_checks(
                        self.models.inspections@,
                        self.models.inspections@.len() as int,
                    )
                },
            }
        }
    }

    /// Profiles are judged only where all that they rest upon can be read.
    pub open spec fn profile_checks(self) -> Seq<FindingView> {
        if self.profiles is Valid && self.has_settings() && self.has_engines() && self.runtimes
            is Ok && self.configured() {
            profile_checks(
                self.profile_looks@,
                views(self.models.ids@),
                views(self.engines.ids@),
            )
        } else {
            Seq::empty()
        }
    }

    pub open spec fn bind_look(self) -> Option<BindLook> {
        if self.configured() {
            self.bind
        } else {
            None
        }
    }

    pub open spec fn checks(self) -> Seq<FindingView> {
        seq![
            passed(
                "paths.discovery"@,
                "paths"@,
                "Application paths were discovered."@,
                Some("Configuration file: "@ + self.config_file@),
            ),
        ] + directory_checks(self.directories) + config_checks(self.config_file@, self.config)
            + seq![key_store_check(self.key_store_path@, self.key_store)] + self.auth_checks()
            + seq![
            settings_check(
                self.settings.path@,
                self.settings.is_there,
                optional(self.settings.error),
            ),
        ] + seq![profiles_check(self.profiles_path@, self.profiles)] + seq![
            registry_check(self.engines.registered),
        ] + self.value_checks() + self.engine_checks() + self.model_checks()
            + self.runtime_checks() + self.profile_checks() + (seq![control_check(self.control)]
            + bind_checks(self.control, self.bind_look())) + surrounding_checks(
            self.surroundings,
        )
    }
}

fn no_checks() -> (result: Vec<DoctorFinding>)
    ensures
        views(result@) == Seq::<FindingView>::empty(),
{
    let none: Vec<DoctorFinding> = Vec::new();
    proof {
        assert(views(none@) =~= Seq::empty());
    }
    none
}

fn auth_part(facts: &DoctorFacts, configured: bool) -> (result: Vec<DoctorFinding>)
    requires
        configured == facts.configured(),
    ensures
        views(result@) == facts.auth_checks(),
{
    if !configured {
        return list1(skip_auth());
    }
    match (&facts.key_store, &facts.auth) {
        (StoreLook::Valid(_), Some(auth)) => inspect_server_auth(auth),
        _ => no_checks(),
    }
}

fn model_part(facts: &DoctorFacts, configured: bool) -> (result: Vec<DoctorFinding>)
    requires
        configured == facts.configured(),
    ensures
        views(result@) == facts.model_checks(),
{
    if configured {
        let count: usize = facts.models.ids.len();
        inspect_models(&facts.models.paths, &facts.models.warnings, count as u64)
    } else {
        list1(skip_models())
    }
}

fn runtime_part(facts: &DoctorFacts, configured: bool) -> (result: Vec<DoctorFinding>)
    requires
        configured == facts.configured(),
    ensures
        views(result@) == facts.runtime_checks(),
{
    if facts.engines.registered.is_err() {
        return no_checks();
    }
    match &facts.runtimes {
        Err(error) => list1(
            flag(
                "runtime.inspection_unavailable",
                "runtimes",
                DoctorStatus::Fail,
                "Managed runtime inspection could not be initialized.",
                Some(error.clone()),
                RUNTIMES_REMEDIATION,
            ),
        ),
        Ok(found) => {
            if configured {
                let mut checks = inspect_runtimes(found, &facts.models.ids);
                extend(
                    &mut checks,
                    inspect_model_runtime_selections(found, &facts.models.inspections),
                );
                checks
            } else {
                let none: Vec<String> = Vec::new();
                proof {
                    assert(views(none@) =~= Seq::empty());
                }
                let checks = inspect_runtimes(found, &none);
                proof {
                    assert(views(checks@) + Seq::<FindingView>::empty() =~= views(checks@));
                }
                checks
            }
        },
    }
}

fn profile_part(facts: &DoctorFacts, configured: bool) -> (result: Vec<DoctorFinding>)
    requires
        configured == facts.configured(),
    ensures
        views(result@) == facts.profile_checks(),
{
    let valid = match &facts.profiles {
        StoreLook::Valid(_) => true,
        StoreLook::Invalid(_) => false,
    };
    if valid && facts.settings.error.is_none() && facts.engines.registered.is_ok()
        && facts.runtimes.is_ok() && configured {
        inspect_model_profiles(&facts.profile_looks, &facts.models.ids, &facts.engines.ids)
    } else {
        no_checks()
    }
}

/// The report on all that was found.
pub fn run_with_paths(facts: &DoctorFacts) -> (result: DoctorReport)
    requires
        facts.surroundings.complete(),
    ensures
        result@ == reported(facts.checks()),
{
    let mut checks = list1(
        pass(
            "paths.discovery",
            "paths",
            "Application paths were discovered.",
            Some(cat2("Configuration file: ", facts.config_file.as_str())),
        ),
    );
    extend(&mut checks, inspect_directories(&facts.directories));
    let (config_part, configured) = inspect_config(facts.config_file.as_str(), &facts.config);
    extend(&mut checks, config_part);
    extend(
        &mut checks,
        list1(inspect_auth_store(facts.key_store_path.as_str(), &facts.key_store)),
    );
    extend(&mut checks, auth_part(facts, configured));
    extend(
        &mut checks,
        list1(
            inspect_settings(
                facts.settings.path.as_str(),
                facts.settings.is_there,
                &facts.settings.error,
            ),
        ),
    );
    extend(
        &mut checks,
        list1(inspect_profiles(facts.profiles_path.as_str(), &facts.profiles)),
    );
    extend(&mut checks, list1(inspect_registry(&facts.engines.registered)));
    let engines = facts.engines.registered.is_ok();
    let values = if facts.settings.error.is_none() && engines {
        inspect_setting_values(
            &facts.settings.globals,
            &facts.settings.engines,
            &facts.settings.definitions,
        )
    } else {
        no_checks()
    };
    extend(&mut checks, values);
    let adapters = if engines {
        inspect_engine_adapters(&facts.engines.adapters)
    } else {
        no_checks()
    };
    extend(&mut checks, adapters);
    extend(&mut checks, model_part(facts, configured));
    extend(&mut checks, runtime_part(facts, configured));
    extend(&mut checks, profile_part(facts, configured));
    let control = if configured {
        inspect_control_and_bind(&facts.control, &facts.bind)
    } else {
        inspect_control_and_bind(&facts.control, &None)
    };
    extend(&mut checks, control);
    extend(&mut checks, inspect_surroundings(&facts.surroundings));
    DoctorReport::new(checks)
}

/// The checks where the paths of the server could not even be told.
pub open spec fn pathless_checks(error: Seq<char>, facts: SurroundingFacts) -> Seq<FindingView> {
    seq![
        flagged(
            "paths.discovery"@,
            "paths"@,
            DoctorStatus::Fail,
            "Application paths could not be discovered."@,
            Some(error),
            "Set the platform configuration, data, state, and cache environment to usable absolute locations."@,
        ),
    ] + surrounding_checks(facts)
}

pub fn run_without_paths(error: &str, facts: &SurroundingFacts) -> (result: DoctorReport)
    requires
        facts.complete(),
    ensures
        result@ == reported(pathless_checks(error@, *facts)),
{
    let mut checks = list1(
        flag(
            "paths.discovery",
            "paths",
            DoctorStatus::Fail,
            "Application paths could not be discovered.",
            Some(error.to_owned()),
            "Set the platform configuration, data, state, and cache environment to usable absolute locations.",
        ),
    );
    extend(&mut checks, inspect_surroundings(facts));
    DoctorReport::new(checks)
}

/// What rests on something that cannot be read is not judged: without a configuration neither the
/// authentication nor the models nor the address; without settings or engines no values; without engines
/// neither adapters nor runtimes; and profiles only with all of these.
pub proof fn law_only_what_can_be_read_is_judged(facts: DoctorFacts)
    ensures
        ({
            let settled = facts.settings.error is None;
            let engines = facts.engines.registered is Ok;
            let configured = has_config(facts.config);
            &&& !configured ==> facts.auth_checks() == seq![auth_skipped()] && facts.model_checks()
                == seq![models_skipped()] && facts.bind_look() is None
                && facts.known_models().len() == 0
            &&& configured && facts.key_store is Valid && facts.auth is Some ==> facts.auth_checks()
                == server_auth_checks(facts.auth->0)
            &&& configured && !(facts.key_store is Valid) ==> facts.auth_checks().len() == 0
            &&& configured ==> facts.bind_look() == facts.bind && facts.known_models() == views(
                facts.models.ids@,
            )
            &&& !settled || !engines ==> facts.value_checks().len() == 0
            &&& settled && engines ==> facts.value_checks() == setting_checks(
                facts.settings.globals@,
                facts.settings.engines@,
                facts.settings.definitions,
            )
            &&& !engines ==> facts.engine_checks().len() == 0 && facts.runtime_checks().len() == 0
            &&& engines ==> facts.engine_checks().len() == facts.engines.adapters@.len()
            &&& engines && facts.runtimes is Err ==> facts.runtime_checks().len() == 1
                && facts.runtime_checks()[0].status == DoctorStatus::Fail
            &&& facts.profiles is Valid && settled && engines && facts.runtimes is Ok && configured
                ==> facts.profile_checks().len() == facts.profile_looks@.len()
            &&& !(facts.profiles is Valid) || !settled || !engines || facts.runtimes is Err
                || !configured ==> facts.profile_checks().len() == 0
        }),
{
}

/// Where the paths of the server cannot be told, that is a failure, and all that can still be looked at is
/// what surrounds it.
pub proof fn law_missing_paths_fail(error: Seq<char>, facts: SurroundingFacts)
    ensures
        ({
            let checks = pathless_checks(error, facts);
            &&& checks[0].status == DoctorStatus::Fail
            &&& checks[0].code == "paths.discovery"@
            &&& checks[0].detail == Some(error)
            &&& checks.skip(1) == surrounding_checks(facts)
            &&& surrounding_checks(facts)[0] == platform_check(facts.host)
            &&& surrounding_checks(facts).last() == terminal_check(
                facts.stdin_tty,
                facts.stdout_tty,
            )
        }),
{
    assert(pathless_checks(error, facts).skip(1) =~= surrounding_checks(facts));
}

/// Each directory of the server is checked under its own code.
pub proof fn law_directories_are_checked(list: ServerDirectories)
    ensures
        ({
            let checks = directory_checks(list);
            &&& checks.len() == 7
            &&& checks[0].code == "paths.config"@ && checks[1].code == "paths.data"@
            &&& checks[2].code == "paths.state"@ && checks[3].code == "paths.cache"@
            &&& checks[4].code == "paths.logs"@ && checks[5].code == "paths.runtimes"@
            &&& checks[6].code == "paths.runtime_cache"@
            &&& checks[0].status == DoctorStatus::Pass <==> list.config.look is Writable
                || list.config.look is Creatable
            &&& checks[1].status == DoctorStatus::Pass <==> list.data.look is Writable
                || list.data.look is Creatable
            &&& checks[2].status == DoctorStatus::Pass <==> list.state.look is Writable
                || list.state.look is Creatable
            &&& checks[3].status == DoctorStatus::Pass <==> list.cache.look is Writable
                || list.cache.look is Creatable
            &&& checks[4].status == DoctorStatus::Pass <==> list.logs.look is Writable
                || list.logs.look is Creatable
            &&& checks[5].status == DoctorStatus::Pass <==> list.runtimes.look is Writable
                || list.runtimes.look is Creatable
            &&& checks[6].status == DoctorStatus::Pass <==> list.runtime_cache.look is Writable
                || list.runtime_cache.look is Creatable
        }),
{
}

/// What was found of each part of the server is in the report.
pub proof fn law_every_part_is_reported(facts: DoctorFacts, check: FindingView)
    ensures
        directory_checks(facts.directories).contains(check) || config_checks(
            facts.config_file@,
            facts.config,
        ).contains(check) || check == key_store_check(facts.key_store_path@, facts.key_store)
            || facts.auth_checks().contains(check) || check == settings_check(
            facts.settings.path@,
            facts.settings.is_there,
            optional(facts.settings.error),
        ) || check == profiles_check(facts.profiles_path@, facts.profiles) || check
            == registry_check(facts.engines.registered) || facts.value_checks().contains(check)
            || facts.engine_checks().contains(check) || facts.model_checks().contains(check)
            || facts.runtime_checks().contains(check) || facts.profile_checks().contains(check)
            || check == control_check(facts.control) || bind_checks(
            facts.control,
            facts.bind_look(),
        ).contains(check) || surrounding_checks(facts.surroundings).contains(check)
            ==> facts.checks().contains(check),
{
    let p0 = seq![
        passed(
            "paths.discovery"@,
            "paths"@,
            "Application paths were discovered."@,
            Some("Configuration file: "@ + facts.config_file@),
        ),
    ];
    let p1 = p0 + directory_checks(facts.directories);
    let p2 = p1 + config_checks(facts.config_file@, facts.config);
    let keys = seq![key_store_check(facts.key_store_path@, facts.key_store)];
    let p3 = p2 + keys;
    let p4 = p3 + facts.auth_checks();
    let settings = seq![
        settings_check(
            facts.settings.path@,
            facts.settings.is_there,
            optional(facts.settings.error),
        ),
    ];
    let p5 = p4 + settings;
    let profiles = seq![profiles_check(facts.profiles_path@, facts.profiles)];
    let p6 = p5 + profiles;
    let registry = seq![registry_check(facts.engines.registered)];
    let p7 = p6 + registry;
    let p8 = p7 + facts.value_checks();
    let p9 = p8 + facts.engine_checks();
    let p10 = p9 + facts.model_checks();
    let p11 = p10 + facts.runtime_checks();
    let p12 = p11 + facts.profile_checks();
    let control = seq![control_check(facts.control)];
    let network = control + bind_checks(facts.control, facts.bind_look());
    let p13 = p12 + network;
    let p14 = p13 + surrounding_checks(facts.surroundings);
    assert(facts.checks() =~= p14);
    lemma_in_both(p0, directory_checks(facts.directories), check);
    lemma_in_both(p1, config_checks(facts.config_file@, facts.config), check);
    lemma_in_both(p2, keys, check);
    assert(keys[0] == key_store_check(facts.key_store_path@, facts.key_store));
    lemma_in_both(p3, facts.auth_checks(), check);
    lemma_in_both(p4, settings, check);
    assert(settings.contains(settings[0]));
    lemma_in_both(p5, profiles, check);
    assert(profiles.contains(profiles[0]));
    lemma_in_both(p6, registry, check);
    assert(registry.contains(registry[0]));
    assert(keys.contains(keys[0]));
    assert(control.contains(control[0]));
    lemma_in_both(p7, facts.value_checks(), check);
    lemma_in_both(p8, facts.engine_checks(), check);
    lemma_in_both(p9, facts.model_checks(), check);
    lemma_in_both(p10, facts.runtime_checks(), check);
    lemma_in_both(p11, facts.profile_checks(), check);
    lemma_in_both(control, bind_checks(facts.control, facts.bind_look()), check);
    lemma_in_both(p12, network, check);
    lemma_in_both(p13, surrounding_checks(facts.surroundings), check);
}

proof fn lemma_in_both(first: Seq<FindingView>, second: Seq<FindingView>, check: FindingView)
    ensures
        first.contains(check) || second.contains(check) ==> (first + second).contains(check),
{
    if first.contains(check) {
        assert((first + second)[first.index_of(check)] == check);
    } else if second.contains(check) {
        assert((first + second)[first.len() + second.index_of(check)] == check);
    }
}

} // verus!
