//! Checks of directories, configuration, keys, settings, engines, models, the running server and the
//! host.
use vstd::prelude::*;
use vstd::string::*;

use crate::duplicate::{duplicate_option, lemma_views_push, optional, views};
use crate::engines::{EngineIdentity, EngineProbe, InstallationState};
use crate::lifecycle::BackendLifecycle;
use crate::outside::{check_toml, lossy_text, text_from_utf8_lossy, toml_fault};
use crate::text::{
    cat2, cat3, cat4, cat5, cat7, chars_of, contains_text, decimal, decimal_text, find_char, join,
    joined, same, text_between,
};

use super::{
    bounded, bounded_detail, bounded_optional, extend, flag, flagged, pass, passed, DoctorFinding,
    DoctorStatus, FindingView, AUTH_KEY_REMEDIATION, MODELS_REMEDIATION,
};

verus! {

/// What is seen of a directory that the server needs.
#[derive(Debug)]
pub enum DirectoryLook {
    NotDirectory,
    Writable,
    Unwritable(String),
    Creatable,
    Uncreatable(String),
    Inaccessible(String),
}

pub open spec fn directory_check(
    code: Seq<char>,
    label: Seq<char>,
    path: Seq<char>,
    look: DirectoryLook,
) -> FindingView {
    match look {
        DirectoryLook::NotDirectory => flagged(
            code,
            "paths"@,
            DoctorStatus::Fail,
            label + " is not a directory."@,
            Some(path),
            "Move the conflicting object and let a normal Norted operation create the directory."@,
        ),
        DirectoryLook::Writable => passed(
            code,
            "paths"@,
            label + " exists and is available for normal writes."@,
            Some(path),
        ),
        DirectoryLook::Unwritable(error) => flagged(
            code,
            "paths"@,
            DoctorStatus::Fail,
            label + " is not available for normal required writes."@,
            Some(path + ": "@ + error@),
            "Restore directory traversal and write access for the account running Norted Server."@,
        ),
        DirectoryLook::Creatable => passed(
            code,
            "paths"@,
            label + " is absent; this is valid fresh state."@,
            Some(path + " (not created by Doctor)"@),
        ),
        DirectoryLook::Uncreatable(error) => flagged(
            code,
            "paths"@,
            DoctorStatus::Fail,
            label + " is absent and cannot be created by a normal operation."@,
            Some(path + ": "@ + error@),
            "Restore traversal and write access to the nearest existing parent directory."@,
        ),
        DirectoryLook::Inaccessible(error) => flagged(
            code,
            "paths"@,
            DoctorStatus::Fail,
            label + " is inaccessible."@,
            Some(path + ": "@ + error@),
            "Restore directory metadata, traversal, and read access."@,
        ),
    }
}

pub fn directory_finding(code: &str, label: &str, path: &str, look: &DirectoryLook) -> (result:
    DoctorFinding)
    ensures
        result@ == directory_check(code@, label@, path@, *look),
{
    match look {
        DirectoryLook::NotDirectory => flag(
            code,
            "paths",
            DoctorStatus::Fail,
            cat2(label, " is not a directory.").as_str(),
            Some(path.to_owned()),
            "Move the conflicting object and let a normal Norted operation create the directory.",
        ),
        DirectoryLook::Writable => pass(
            code,
            "paths",
            cat2(label, " exists and is available for normal writes.").as_str(),
            Some(path.to_owned()),
        ),
        DirectoryLook::Unwritable(error) => flag(
            code,
            "paths",
            DoctorStatus::Fail,
            cat2(label, " is not available for normal required writes.").as_str(),
            Some(cat3(path, ": ", error.as_str())),
            "Restore directory traversal and write access for the account running Norted Server.",
        ),
        DirectoryLook::Creatable => pass(
            code,
            "paths",
            cat2(label, " is absent; this is valid fresh state.").as_str(),
            Some(cat2(path, " (not created by Doctor)")),
        ),
        DirectoryLook::Uncreatable(error) => flag(
            code,
            "paths",
            DoctorStatus::Fail,
            cat2(label, " is absent and cannot be created by a normal operation.").as_str(),
            Some(cat3(path, ": ", error.as_str())),
            "Restore traversal and write access to the nearest existing parent directory.",
        ),
        DirectoryLook::Inaccessible(error) => flag(
            code,
            "paths",
            DoctorStatus::Fail,
            cat2(label, " is inaccessible.").as_str(),
            Some(cat3(path, ": ", error.as_str())),
            "Restore directory metadata, traversal, and read access.",
        ),
    }
}

/// What is seen of a path on the way up from one that does not exist.
#[derive(Debug)]
pub enum ParentLook {
    Directory,
    NotDirectory { path: String },
    Missing,
    Inaccessible { path: String, error: String },
}

/// The first thing on the way up that exists, by its place, if it is a directory.
pub open spec fn nearest_directory(looks: Seq<ParentLook>, at: int) -> Result<int, Seq<char>>
    decreases looks.len() - at,
{
    if at >= looks.len() {
        Err("no existing parent directory is available"@)
    } else {
        match looks[at] {
            ParentLook::Directory => Ok(at),
            ParentLook::NotDirectory { path } => Err(path@ + " is not a directory"@),
            ParentLook::Missing => nearest_directory(looks, at + 1),
            ParentLook::Inaccessible { path, error } => Err(path@ + ": "@ + error@),
        }
    }
}

pub fn nearest_existing_directory(looks: &Vec<ParentLook>) -> (result: Result<usize, String>)
    ensures
        match (result, nearest_directory(looks@, 0)) {
            (Ok(at), Ok(expected)) => at == expected,
            (Err(error), Err(expected)) => error@ == expected,
            _ => false,
        },
{
    let mut i: usize = 0;
    while i < looks.len()
        invariant
            i <= looks@.len(),
            nearest_directory(looks@, 0) == nearest_directory(looks@, i as int),
        decreases looks@.len() - i,
    {
        match &looks[i] {
            ParentLook::Directory => {
                return Ok(i);
            },
            ParentLook::NotDirectory { path } => {
                return Err(cat2(path.as_str(), " is not a directory"));
            },
            ParentLook::Missing => {},
            ParentLook::Inaccessible { path, error } => {
                return Err(cat3(path.as_str(), ": ", error.as_str()));
            },
        }
        i += 1;
    }
    Err("no existing parent directory is available".to_owned())
}

/// What loading the configuration came to: the address to bind, where it can be told, or an error.
#[derive(Debug)]
pub enum Loaded {
    Valid { address: Option<String> },
    Invalid(String),
}

/// What is seen of the configuration file.
#[derive(Debug)]
pub enum ConfigLook {
    Absent,
    Unreadable(String),
    Read { text: String, loaded: Loaded },
}

/// Whether there is a configuration to go by.
pub open spec fn has_config(look: ConfigLook) -> bool {
    match look {
        ConfigLook::Absent => true,
        ConfigLook::Unreadable(_) => false,
        ConfigLook::Read { text, loaded } => toml_fault(text@) is None && loaded is Valid,
    }
}

pub open spec fn config_checks(file: Seq<char>, look: ConfigLook) -> Seq<FindingView> {
    match look {
        ConfigLook::Absent => seq![
            passed(
                "config.file"@,
                "configuration"@,
                "Configuration file is absent; valid built-in defaults apply."@,
                Some(file),
            ),
            passed(
                "config.schema"@,
                "configuration"@,
                "Built-in configuration schema is valid."@,
                None,
            ),
        ],
        ConfigLook::Unreadable(error) => seq![
            flagged(
                "config.readable"@,
                "configuration"@,
                DoctorStatus::Fail,
                "Configuration file is not readable."@,
                Some(file + ": "@ + error@),
                "Restore read access to the configuration file."@,
            ),
        ],
        ConfigLook::Read { text, loaded } => {
            let readable = passed(
                "config.readable"@,
                "configuration"@,
                "Configuration file is readable."@,
                Some(file),
            );
            let syntax = passed(
                "config.toml"@,
                "configuration"@,
                "Configuration TOML syntax is valid."@,
                None,
            );
            match (toml_fault(text@), loaded) {
                (Some(fault), _) => seq![
                    readable,
                    flagged(
                        "config.toml"@,
                        "configuration"@,
                        DoctorStatus::Fail,
                        "Configuration is not valid TOML."@,
                        Some(fault),
                        "Correct the TOML syntax and run Doctor again."@,
                    ),
                ],
                (None, Loaded::Valid { address }) => seq![
                    readable,
                    syntax,
                    passed(
                        "config.schema"@,
                        "configuration"@,
                        "Configuration structure, fields, and schema version are valid."@,
                        None,
                    ),
                    passed(
                        "config.server_address"@,
                        "configuration"@,
                        "Server bind address is valid."@,
                        optional(address),
                    ),
                ],
                (None, Loaded::Invalid(error)) => seq![
                    readable,
                    syntax,
                    flagged(
                        "config.schema"@,
                        "configuration"@,
                        DoctorStatus::Fail,
                        "Configuration structure, fields, or schema version is invalid."@,
                        Some(error@),
                        "Remove unknown fields, correct field values, and use the schema version supported by this build."@,
                    ),
                ],
            }
        },
    }
}

pub(crate) fn list1(a: DoctorFinding) -> (result: Vec<DoctorFinding>)
    ensures
        views(result@) == seq![a@],
{
    let ghost view = a@;
    let mut result: Vec<DoctorFinding> = Vec::new();
    result.push(a);
    proof {
        assert(views(result@) =~= seq![view]);
    }
    result
}

pub(crate) fn list2(a: DoctorFinding, b: DoctorFinding) -> (result: Vec<DoctorFinding>)
    ensures
        views(result@) == seq![a@, b@],
{
    let ghost (x, y) = (a@, b@);
    let mut result: Vec<DoctorFinding> = Vec::new();
    result.push(a);
    result.push(b);
    proof {
        assert(views(result@) =~= seq![x, y]);
    }
    result
}

/// Checks the configuration, and says whether there is one to go by.
pub fn inspect_config(file: &str, look: &ConfigLook) -> (result: (Vec<DoctorFinding>, bool))
    ensures
        views(result.0@) == config_checks(file@, *look),
        result.1 == has_config(*look),
{
    match look {
        ConfigLook::Absent => (
            list2(
                pass(
                    "config.file",
                    "configuration",
                    "Configuration file is absent; valid built-in defaults apply.",
                    Some(file.to_owned()),
                ),
                pass(
                    "config.schema",
                    "configuration",
                    "Built-in configuration schema is valid.",
                    None,
                ),
            ),
            true,
        ),
        ConfigLook::Unreadable(error) => (
            list1(
                flag(
                    "config.readable",
                    "configuration",
                    DoctorStatus::Fail,
                    "Configuration file is not readable.",
                    Some(cat3(file, ": ", error.as_str())),
                    "Restore read access to the configuration file.",
                ),
            ),
            false,
        ),
        ConfigLook::Read { text, loaded } => {
            let readable = pass(
                "config.readable",
                "configuration",
                "Configuration file is readable.",
                Some(file.to_owned()),
            );
            match check_toml(text.as_str()) {
                Some(fault) => {
                    return (
                        list2(
                            readable,
                            flag(
                                "config.toml",
                                "configuration",
                                DoctorStatus::Fail,
                                "Configuration is not valid TOML.",
                                Some(fault),
                                "Correct the TOML syntax and run Doctor again.",
                            ),
                        ),
                        false,
                    );
                },
                None => {},
            }
            let mut checks = list2(
                readable,
                pass(
                    "config.toml",
                    "configuration",
                    "Configuration TOML syntax is valid.",
                    None,
                ),
            );
            match loaded {
                Loaded::Valid { address } => {
                    let more = list2(
                        pass(
                            "config.schema",
                            "configuration",
                            "Configuration structure, fields, and schema version are valid.",
                            None,
                        ),
                        pass(
                            "config.server_address",
                            "configuration",
                            "Server bind address is valid.",
                            duplicate_option(address),
                        ),
                    );
                    extend(&mut checks, more);
                    proof {
                        assert(views(checks@) =~= config_checks(file@, *look));
                    }
                    (checks, true)
                },
                Loaded::Invalid(error) => {
                    let more = list1(
                        flag(
                            "config.schema",
                            "configuration",
                            DoctorStatus::Fail,
                            "Configuration structure, fields, or schema version is invalid.",
                            Some(error.clone()),
                            "Remove unknown fields, correct field values, and use the schema version supported by this build.",
                        ),
                    );
                    extend(&mut checks, more);
                    proof {
                        assert(views(checks@) =~= config_checks(file@, *look));
                    }
                    (checks, false)
                },
            }
        },
    }
}

/// What reading a store came to: how much is in it, or an error.
#[derive(Debug)]
pub enum StoreLook {
    Valid(u64),
    Invalid(String),
}

pub open spec fn key_store_check(path: Seq<char>, look: StoreLook) -> FindingView {
    match look {
        StoreLook::Valid(active) => passed(
            "auth.key_store"@,
            "authentication"@,
            "API-key state is valid; "@ + decimal(active as nat) + " active key(s)."@,
            Some(path),
        ),
        StoreLook::Invalid(error) => flagged(
            "auth.key_store"@,
            "authentication"@,
            DoctorStatus::Fail,
            "API-key state is unreadable or invalid."@,
            Some(bounded(error@)),
            "Restore a valid API-key state file. Doctor will not expose or rewrite key material."@,
        ),
    }
}

pub fn inspect_auth_store(path: &str, look: &StoreLook) -> (result: DoctorFinding)
    ensures
        result@ == key_store_check(path@, *look),
{
    match look {
        StoreLook::Valid(active) => pass(
            "auth.key_store",
            "authentication",
            cat3(
                "API-key state is valid; ",
                decimal_text(*active).as_str(),
                " active key(s).",
            ).as_str(),
            Some(path.to_owned()),
        ),
        StoreLook::Invalid(error) => flag(
            "auth.key_store",
            "authentication",
            DoctorStatus::Fail,
            "API-key state is unreadable or invalid.",
            Some(bounded_detail(error.as_str())),
            "Restore a valid API-key state file. Doctor will not expose or rewrite key material.",
        ),
    }
}

/// How the public endpoint is protected.
#[derive(Debug)]
pub struct PublicAuthStatus {
    pub bind: String,
    pub loopback: bool,
    pub configured_mode: String,
    pub effective_mode: String,
    pub active_key_count: u64,
    pub bind_allowed: bool,
    pub insecure_remote: bool,
}

pub open spec fn auth_policy_check(status: PublicAuthStatus) -> FindingView {
    if !status.bind_allowed {
        flagged(
            "auth.required_without_keys"@,
            "authentication"@,
            DoctorStatus::Fail,
            "Authentication is required at "@ + status.bind@
                + ", but there are no active API keys."@,
            Some(
                "Configured mode: "@ + status.configured_mode@ + "; effective mode: "@
                    + status.effective_mode@ + "."@,
            ),
            AUTH_KEY_REMEDIATION@,
        )
    } else if status.insecure_remote {
        flagged(
            "auth.remote_insecure"@,
            "authentication"@,
            DoctorStatus::Warning,
            "Remote serving at "@ + status.bind@ + " explicitly disables authentication."@,
            Some(
                "Prompts and outputs travel over unauthenticated plain HTTP unless an external trusted transport protects the endpoint."@,
            ),
            "Bind to loopback, or set server.auth to auto or required. Use a trusted encrypted reverse proxy when remote transport is necessary."@,
        )
    } else {
        passed(
            "auth.policy"@,
            "authentication"@,
            "Public authentication policy is safe for "@ + status.bind@ + "."@,
            None,
        )
    }
}

pub open spec fn server_auth_checks(status: Result<PublicAuthStatus, String>) -> Seq<FindingView> {
    match status {
        Ok(status) => seq![
            passed(
                "auth.status"@,
                "authentication"@,
                "Public bind "@ + status.bind@ + " is "@ + if status.loopback {
                    "loopback"@
                } else {
                    "remote"@
                } + "."@,
                Some(
                    "Configured auth: "@ + status.configured_mode@ + "; effective auth: "@
                        + status.effective_mode@ + "; active keys: "@ + decimal(
                        status.active_key_count as nat,
                    ) + "."@,
                ),
            ),
            auth_policy_check(status),
        ],
        Err(error) => seq![
            flagged(
                "auth.policy"@,
                "authentication"@,
                DoctorStatus::Fail,
                "Public authentication policy could not be evaluated."@,
                Some(error@),
                "Correct the configured server address and authentication mode."@,
            ),
        ],
    }
}

fn auth_policy_finding(status: &PublicAuthStatus) -> (result: DoctorFinding)
    ensures
        result@ == auth_policy_check(*status),
{
    let bind = status.bind.as_str();
    if !status.bind_allowed {
        flag(
            "auth.required_without_keys",
            "authentication",
            DoctorStatus::Fail,
            cat3(
                "Authentication is required at ",
                bind,
                ", but there are no active API keys.",
            ).as_str(),
            Some(
                cat5(
                    "Configured mode: ",
                    status.configured_mode.as_str(),
                    "; effective mode: ",
                    status.effective_mode.as_str(),
                    ".",
                ),
            ),
            AUTH_KEY_REMEDIATION,
        )
    } else if status.insecure_remote {
        flag(
            "auth.remote_insecure",
            "authentication",
            DoctorStatus::Warning,
            cat3(
                "Remote serving at ",
                bind,
                " explicitly disables authentication.",
            ).as_str(),
            Some(
                "Prompts and outputs travel over unauthenticated plain HTTP unless an external trusted transport protects the endpoint.".to_owned(),
            ),
            "Bind to loopback, or set server.auth to auto or required. Use a trusted encrypted reverse proxy when remote transport is necessary.",
        )
    } else {
        pass(
            "auth.policy",
            "authentication",
            cat3("Public authentication policy is safe for ", bind, ".").as_str(),
            None,
        )
    }
}

pub fn inspect_server_auth(status: &Result<PublicAuthStatus, String>) -> (result: Vec<
    DoctorFinding,
>)
    ensures
        views(result@) == server_auth_checks(*status),
{
    match status {
        Ok(status) => {
            let place = if status.loopback {
                "loopback"
            } else {
                "remote"
            };
            list2(
                pass(
                    "auth.status",
                    "authentication",
                    cat5("Public bind ", status.bind.as_str(), " is ", place, ".").as_str(),
                    Some(
                        cat7(
                            "Configured auth: ",
                            status.configured_mode.as_str(),
                            "; effective auth: ",
                            status.effective_mode.as_str(),
                            "; active keys: ",
                            decimal_text(status.active_key_count).as_str(),
                            ".",
                        ),
                    ),
                ),
                auth_policy_finding(status),
            )
        },
        Err(error) => list1(
            flag(
                "auth.policy",
                "authentication",
                DoctorStatus::Fail,
                "Public authentication policy could not be evaluated.",
                Some(error.clone()),
                "Correct the configured server address and authentication mode.",
            ),
        ),
    }
}

/// What is said of the authentication where there is no configuration.
pub open spec fn auth_skipped() -> FindingView {
    flagged(
        "auth.skipped"@,
        "authentication"@,
        DoctorStatus::Warning,
        "Authentication policy could not be evaluated because configuration is invalid."@,
        None,
        "Repair the configuration reported above, then run Doctor again."@,
    )
}

pub fn skip_auth() -> (result: DoctorFinding)
    ensures
        result@ == auth_skipped(),
{
    flag(
        "auth.skipped",
        "authentication",
        DoctorStatus::Warning,
        "Authentication policy could not be evaluated because configuration is invalid.",
        None,
        "Repair the configuration reported above, then run Doctor again.",
    )
}

pub open spec fn settings_check(path: Seq<char>, is_there: bool, error: Option<Seq<char>>) -> FindingView {
    match error {
        None => passed(
            "settings.state"@,
            "settings"@,
            if is_there {
                "Persisted settings state is readable and structurally valid."@
            } else {
                "Settings state is absent; valid defaults apply."@
            },
            Some(path),
        ),
        Some(error) => flagged(
            "settings.state_invalid"@,
            "settings"@,
            DoctorStatus::Fail,
            "Persisted settings state is unreadable or invalid."@,
            Some(bounded(error)),
            "Correct settings.json using the current schema. Doctor will not migrate or rewrite it."@,
        ),
    }
}

pub fn inspect_settings(path: &str, is_there: bool, error: &Option<String>) -> (result:
    DoctorFinding)
    ensures
        result@ == settings_check(path@, is_there, optional(*error)),
{
    match error {
        None => pass(
            "settings.state",
            "settings",
            if is_there {
                "Persisted settings state is readable and structurally valid."
            } else {
                "Settings state is absent; valid defaults apply."
            },
            Some(path.to_owned()),
        ),
        Some(error) => flag(
            "settings.state_invalid",
            "settings",
            DoctorStatus::Fail,
            "Persisted settings state is unreadable or invalid.",
            Some(bounded_detail(error.as_str())),
            "Correct settings.json using the current schema. Doctor will not migrate or rewrite it.",
        ),
    }
}

pub open spec fn profiles_check(path: Seq<char>, look: StoreLook) -> FindingView {
    match look {
        StoreLook::Valid(count) => if count == 0 {
            flagged(
                "model_profiles.none"@,
                "model_profiles"@,
                DoctorStatus::Warning,
                "No Model Profiles are configured."@,
                Some(path),
                "Run:\n  norted-server model-profiles list\nCreate a Model Profile before loading a model."@,
            )
        } else {
            passed(
                "model_profiles.state"@,
                "model_profiles"@,
                decimal(count as nat) + " Model Profile(s) are structurally valid."@,
                Some(path),
            )
        },
        StoreLook::Invalid(error) => flagged(
            "model_profiles.state_invalid"@,
            "model_profiles"@,
            DoctorStatus::Fail,
            "Model Profile state is unreadable or invalid."@,
            Some(bounded(error@)),
            "Correct model-profiles.json using the current schema. Doctor will not migrate or rewrite it."@,
        ),
    }
}

pub fn inspect_profiles(path: &str, look: &StoreLook) -> (result: DoctorFinding)
    ensures
        result@ == profiles_check(path@, *look),
{
    match look {
        StoreLook::Valid(count) => {
            if *count == 0 {
                flag(
                    "model_profiles.none",
                    "model_profiles",
                    DoctorStatus::Warning,
                    "No Model Profiles are configured.",
                    Some(path.to_owned()),
                    "Run:\n  norted-server model-profiles list\nCreate a Model Profile before loading a model.",
                )
            } else {
                pass(
                    "model_profiles.state",
                    "model_profiles",
                    cat2(
                        decimal_text(*count).as_str(),
                        " Model Profile(s) are structurally valid.",
                    ).as_str(),
                    Some(path.to_owned()),
                )
            }
        },
        StoreLook::Invalid(error) => flag(
            "model_profiles.state_invalid",
            "model_profiles",
            DoctorStatus::Fail,
            "Model Profile state is unreadable or invalid.",
            Some(bounded_detail(error.as_str())),
            "Correct model-profiles.json using the current schema. Doctor will not migrate or rewrite it.",
        ),
    }
}

pub open spec fn registry_check(registered: Result<u64, String>) -> FindingView {
    match registered {
        Ok(count) => passed(
            "engine.registry"@,
            "engines"@,
            decimal(count as nat) + " engine adapters registered."@,
            None,
        ),
        Err(error) => flagged(
            "engine.registry"@,
            "engines"@,
            DoctorStatus::Fail,
            "Engine adapters could not be registered."@,
            Some(error@),
            "Review [engine] configuration and reinstall Norted Server if built-in adapters are missing."@,
        ),
    }
}

pub fn inspect_registry(registered: &Result<u64, String>) -> (result: DoctorFinding)
    ensures
        result@ == registry_check(*registered),
{
    match registered {
        Ok(count) => pass(
            "engine.registry",
            "engines",
            cat2(decimal_text(*count).as_str(), " engine adapters registered.").as_str(),
            None,
        ),
        Err(error) => flag(
            "engine.registry",
            "engines",
            DoctorStatus::Fail,
            "Engine adapters could not be registered.",
            Some(error.clone()),
            "Review [engine] configuration and reinstall Norted Server if built-in adapters are missing.",
        ),
    }
}

/// A value that is set: whether the setting can be one of the engine that it is set for, and what its
/// definition has against the value.
#[derive(Debug)]
pub struct PatchEntry {
    pub id: String,
    pub applies: bool,
    pub fault: Option<String>,
}

/// What is set for an engine.
#[derive(Debug)]
pub struct EnginePatch {
    pub engine_id: String,
    pub registered: bool,
    pub entries: Vec<PatchEntry>,
}

/// What is wrong with a value that is set, if anything.
pub open spec fn entry_error(
    entry: PatchEntry,
    engine: Option<Seq<char>>,
    definitions: Seq<Seq<char>>,
) -> Option<Seq<char>> {
    if !definitions.contains(entry.id@) {
        Some("unknown setting `"@ + entry.id@ + "`"@)
    } else if engine is Some && !entry.applies {
        Some("setting `"@ + entry.id@ + "` does not apply to engine `"@ + engine->0 + "`"@)
    } else {
        optional(entry.fault)
    }
}

/// What is wrong with the first values of a patch.
pub open spec fn patch_errors(
    entries: Seq<PatchEntry>,
    engine: Option<Seq<char>>,
    definitions: Seq<Seq<char>>,
    count: int,
) -> Seq<Seq<char>>
    decreases count,
{
    if count <= 0 {
        Seq::empty()
    } else {
        let before = patch_errors(entries, engine, definitions, count - 1);
        match entry_error(entries[count - 1], engine, definitions) {
            Some(error) => before.push(error),
            None => before,
        }
    }
}

/// What is wrong with what is set for the first engines.
pub open spec fn engine_errors(
    patches: Seq<EnginePatch>,
    definitions: Seq<Seq<char>>,
    count: int,
) -> Seq<Seq<char>>
    decreases count,
{
    if count <= 0 {
        Seq::empty()
    } else {
        let before = engine_errors(patches, definitions, count - 1);
        let patch = patches[count - 1];
        before + if !patch.registered {
            seq![
                "engine defaults reference unregistered engine `"@ + patch.engine_id@ + "`"@,
            ]
        } else {
            patch_errors(
                patch.entries@,
                Some(patch.engine_id@),
                definitions,
                patch.entries@.len() as int,
            )
        }
    }
}

fn validate_patch(
    entries: &Vec<PatchEntry>,
    engine: Option<&str>,
    definitions: &Vec<String>,
    errors: &mut Vec<String>,
)
    ensures
        views(final(errors)@) == views(old(errors)@) + patch_errors(
            entries@,
            match engine {
                Some(engine) => Some(engine@),
                None => None,
            },
            views(definitions@),
            entries@.len() as int,
        ),
{
    let ghost before = views(errors@);
    let ghost known = views(definitions@);
    let ghost bound: Option<Seq<char>> = match engine {
        Some(engine) => Some(engine@),
        None => None,
    };
    let mut i: usize = 0;
    proof {
        assert(before + Seq::<Seq<char>>::empty() =~= before);
    }
    while i < entries.len()
        invariant
            i <= entries@.len(),
            known == views(definitions@),
            bound == (match engine {
                Some(engine) => Some(engine@),
                None => None,
            }),
            views(errors@) == before + patch_errors(entries@, bound, known, i as int),
        decreases entries@.len() - i,
    {
        let entry = &entries[i];
        let ghost so_far = patch_errors(entries@, bound, known, i as int);
        let error: Option<String> = if !contains_text(definitions, entry.id.as_str()) {
            Some(cat3("unknown setting `", entry.id.as_str(), "`"))
        } else {
            match engine {
                Some(engine) => {
                    if entry.applies {
                        duplicate_option(&entry.fault)
                    } else {
                        Some(
                            cat5(
                                "setting `",
                                entry.id.as_str(),
                                "` does not apply to engine `",
                                engine,
                                "`",
                            ),
                        )
                    }
                },
                None => duplicate_option(&entry.fault),
            }
        };
        proof {
            assert(optional(error) == entry_error(entries@[i as int], bound, known));
        }
        match error {
            Some(error) => {
                proof {
                    lemma_views_push(errors@, error);
                    assert(before + so_far.push(error@) =~= (before + so_far).push(error@));
                }
                errors.push(error);
            },
            None => {},
        }
        i += 1;
    }
}

/// All that is wrong with the settings.
pub open spec fn setting_errors(
    globals: Seq<PatchEntry>,
    engines: Seq<EnginePatch>,
    definitions: Seq<Seq<char>>,
) -> Seq<Seq<char>> {
    patch_errors(globals, None, definitions, globals.len() as int) + engine_errors(
        engines,
        definitions,
        engines.len() as int,
    )
}

pub open spec fn setting_checks(
    globals: Seq<PatchEntry>,
    engines: Seq<EnginePatch>,
    definitions: Result<Vec<String>, String>,
) -> Seq<FindingView> {
    match definitions {
        Err(error) => seq![
            flagged(
                "settings.definitions"@,
                "settings"@,
                DoctorStatus::Fail,
                "Engine setting definitions conflict or are invalid."@,
                Some(error@),
                "Review engine configuration and installed Norted Server components."@,
            ),
        ],
        Ok(definitions) => {
            let errors = setting_errors(globals, engines, views(definitions@));
            if errors.len() == 0 {
                seq![
                    passed(
                        "settings.values"@,
                        "settings"@,
                        "Persisted setting IDs, types, and engine scopes are valid."@,
                        None,
                    ),
                ]
            } else {
                Seq::new(errors.len(), |i: int| setting_error_check(errors[i]))
            }
        },
    }
}

pub open spec fn setting_error_check(error: Seq<char>) -> FindingView {
    flagged(
        "settings.value_invalid"@,
        "settings"@,
        DoctorStatus::Fail,
        "A persisted setting is invalid for the current engine definitions."@,
        Some(error),
        "Use `norted-server settings show` to review current Global and engine defaults."@,
    )
}

fn collect_setting_errors(
    globals: &Vec<PatchEntry>,
    engines: &Vec<EnginePatch>,
    definitions: &Vec<String>,
) -> (result: Vec<String>)
    ensures
        views(result@) == setting_errors(globals@, engines@, views(definitions@)),
{
    let ghost known = views(definitions@);
    let mut errors: Vec<String> = Vec::new();
    proof {
        assert(views(errors@) =~= Seq::empty());
    }
    validate_patch(globals, None, definitions, &mut errors);
    let ghost first = patch_errors(globals@, None, known, globals@.len() as int);
    let mut i: usize = 0;
    proof {
        assert(views(errors@) =~= first);
        assert(first + Seq::<Seq<char>>::empty() =~= first);
    }
    while i < engines.len()
        invariant
            i <= engines@.len(),
            known == views(definitions@),
            views(errors@) == first + engine_errors(engines@, known, i as int),
        decreases engines@.len() - i,
    {
        let patch = &engines[i];
        let ghost so_far = engine_errors(engines@, known, i as int);
        if !patch.registered {
            let error = cat3(
                "engine defaults reference unregistered engine `",
                patch.engine_id.as_str(),
                "`",
            );
            proof {
                lemma_views_push(errors@, error);
                assert(first + (so_far + seq![error@]) =~= (first + so_far).push(error@));
            }
            errors.push(error);
        } else {
            let ghost more = patch_errors(
                patch.entries@,
                Some(patch.engine_id@),
                known,
                patch.entries@.len() as int,
            );
            validate_patch(
                &patch.entries,
                Some(patch.engine_id.as_str()),
                definitions,
                &mut errors,
            );
            proof {
                assert(first + (so_far + more) =~= (first + so_far) + more);
            }
        }
        i += 1;
    }
    errors
}

pub fn inspect_setting_values(
    globals: &Vec<PatchEntry>,
    engines: &Vec<EnginePatch>,
    definitions: &Result<Vec<String>, String>,
) -> (result: Vec<DoctorFinding>)
    ensures
        views(result@) == setting_checks(globals@, engines@, *definitions),
{
    let definitions = match definitions {
        Ok(definitions) => definitions,
        Err(error) => {
            return list1(
                flag(
                    "settings.definitions",
                    "settings",
                    DoctorStatus::Fail,
                    "Engine setting definitions conflict or are invalid.",
                    Some(error.clone()),
                    "Review engine configuration and installed Norted Server components.",
                ),
            );
        },
    };
    let errors = collect_setting_errors(globals, engines, definitions);
    let ghost all = views(errors@);
    if errors.len() == 0 {
        return list1(
            pass(
                "settings.values",
                "settings",
                "Persisted setting IDs, types, and engine scopes are valid.",
                None,
            ),
        );
    }
    let ghost expected = Seq::new(all.len(), |i: int| setting_error_check(all[i]));
    let mut checks: Vec<DoctorFinding> = Vec::new();
    let mut i: usize = 0;
    proof {
        assert(views(checks@) =~= expected.take(0));
    }
    while i < errors.len()
        invariant
            i <= errors@.len(),
            all == views(errors@),
            expected == Seq::new(all.len(), |k: int| setting_error_check(all[k])),
            views(checks@) == expected.take(i as int),
        decreases errors@.len() - i,
    {
        let check = flag(
            "settings.value_invalid",
            "settings",
            DoctorStatus::Fail,
            "A persisted setting is invalid for the current engine definitions.",
            Some(errors[i].clone()),
            "Use `norted-server settings show` to review current Global and engine defaults.",
        );
        proof {
            lemma_views_push(checks@, check);
            assert(all[i as int] == errors@[i as int]@);
            assert(expected.take(i + 1) =~= expected.take(i as int).push(expected[i as int]));
        }
        checks.push(check);
        i += 1;
    }
    proof {
        assert(expected.take(expected.len() as int) =~= expected);
    }
    checks
}

/// An engine, and what a probe of its adapter came to.
#[derive(Debug)]
pub struct AdapterLook {
    pub identity: EngineIdentity,
    pub probe: Result<EngineProbe, String>,
}

pub open spec fn adapter_check(adapter: AdapterLook) -> FindingView {
    let code = "engine.adapter."@ + adapter.identity.id@;
    let name = adapter.identity.display_name@;
    match adapter.probe {
        Err(error) => flagged(
            code,
            "engines"@,
            DoctorStatus::Fail,
            name + " adapter probe failed."@,
            Some(bounded(error@)),
            "Review this engine's configuration. Managed runtime integrity is inspected separately."@,
        ),
        Ok(probe) => match probe.installation {
            InstallationState::NotInstalled => passed(
                code,
                "engines"@,
                name + " adapter is registered; no external binary is configured."@,
                Some("Managed runtime packs remain available as the normal path."@),
            ),
            InstallationState::Installed { installation } => if probe.healthy {
                passed(
                    code,
                    "engines"@,
                    name + " external binary is healthy."@,
                    Some(
                        installation.binary_path@ + " ("@ + bounded(probe.detail@) + ")"@,
                    ),
                )
            } else {
                flagged(
                    code,
                    "engines"@,
                    DoctorStatus::Warning,
                    name + " external binary is installed but unhealthy."@,
                    Some(installation.binary_path@ + ": "@ + bounded(probe.detail@)),
                    "Correct or remove the configured external binary. Managed runtime packs are unaffected."@,
                )
            },
            InstallationState::Invalid { reason } => flagged(
                code,
                "engines"@,
                DoctorStatus::Warning,
                name + " external binary configuration is invalid."@,
                Some(bounded(reason@)),
                "Correct or remove the configured external binary. Managed runtime packs are unaffected."@,
            ),
        },
    }
}

pub fn inspect_engine_adapter(adapter: &AdapterLook) -> (result: DoctorFinding)
    ensures
        result@ == adapter_check(*adapter),
{
    let code = cat2("engine.adapter.", adapter.identity.id.as_str());
    let name = adapter.identity.display_name.as_str();
    match &adapter.probe {
        Err(error) => flag(
            code.as_str(),
            "engines",
            DoctorStatus::Fail,
            cat2(name, " adapter probe failed.").as_str(),
            Some(bounded_detail(error.as_str())),
            "Review this engine's configuration. Managed runtime integrity is inspected separately.",
        ),
        Ok(probe) => match &probe.installation {
            InstallationState::NotInstalled => pass(
                code.as_str(),
                "engines",
                cat2(name, " adapter is registered; no external binary is configured.").as_str(),
                Some("Managed runtime packs remain available as the normal path.".to_owned()),
            ),
            InstallationState::Installed { installation } => {
                let detail = bounded_detail(probe.detail.as_str());
                if probe.healthy {
                    pass(
                        code.as_str(),
                        "engines",
                        cat2(name, " external binary is healthy.").as_str(),
                        Some(
                            cat4(installation.binary_path.as_str(), " (", detail.as_str(), ")"),
                        ),
                    )
                } else {
                    flag(
                        code.as_str(),
                        "engines",
                        DoctorStatus::Warning,
                        cat2(name, " external binary is installed but unhealthy.").as_str(),
                        Some(cat3(installation.binary_path.as_str(), ": ", detail.as_str())),
                        "Correct or remove the configured external binary. Managed runtime packs are unaffected.",
                    )
                }
            },
            InstallationState::Invalid { reason } => flag(
                code.as_str(),
                "engines",
                DoctorStatus::Warning,
                cat2(name, " external binary configuration is invalid.").as_str(),
                Some(bounded_detail(reason.as_str())),
                "Correct or remove the configured external binary. Managed runtime packs are unaffected.",
            ),
        },
    }
}

pub open spec fn adapter_checks(adapters: Seq<AdapterLook>) -> Seq<FindingView> {
    Seq::new(adapters.len(), |i: int| adapter_check(adapters[i]))
}

pub fn inspect_engine_adapters(adapters: &Vec<AdapterLook>) -> (result: Vec<DoctorFinding>)
    ensures
        views(result@) == adapter_checks(adapters@),
{
    let ghost expected = adapter_checks(adapters@);
    let mut checks: Vec<DoctorFinding> = Vec::new();
    let mut i: usize = 0;
    proof {
        assert(views(checks@) =~= expected.take(0));
    }
    while i < adapters.len()
        invariant
            i <= adapters@.len(),
            expected == adapter_checks(adapters@),
            views(checks@) == expected.take(i as int),
        decreases adapters@.len() - i,
    {
        let check = inspect_engine_adapter(&adapters[i]);
        proof {
            lemma_views_push(checks@, check);
            assert(expected.take(i + 1) =~= expected.take(i as int).push(expected[i as int]));
        }
        checks.push(check);
        i += 1;
    }
    proof {
        assert(expected.take(expected.len() as int) =~= expected);
    }
    checks
}

/// What is seen of a directory that models are looked for in.
#[derive(Debug)]
pub enum ModelPathState {
    Directory,
    NotDirectory,
    Missing,
    Inaccessible(String),
}

#[derive(Debug)]
pub struct ModelPathLook {
    pub path: String,
    pub state: ModelPathState,
}

pub open spec fn model_path_check(look: ModelPathLook) -> FindingView {
    match look.state {
        ModelPathState::Directory => passed(
            "models.path"@,
            "models"@,
            "Configured model directory is available."@,
            Some(look.path@),
        ),
        ModelPathState::NotDirectory => flagged(
            "models.path_invalid"@,
            "models"@,
            DoctorStatus::Warning,
            "A configured model path is not a directory."@,
            Some(look.path@),
            MODELS_REMEDIATION@,
        ),
        ModelPathState::Missing => flagged(
            "models.path_missing"@,
            "models"@,
            DoctorStatus::Warning,
            "A configured model directory is missing."@,
            Some(look.path@),
            MODELS_REMEDIATION@,
        ),
        ModelPathState::Inaccessible(error) => flagged(
            "models.path_inaccessible"@,
            "models"@,
            DoctorStatus::Warning,
            "A configured model directory is inaccessible."@,
            Some(look.path@ + ": "@ + error@),
            "Restore read and traversal access, then run `norted-server models list`."@,
        ),
    }
}

fn model_path_finding(look: &ModelPathLook) -> (result: DoctorFinding)
    ensures
        result@ == model_path_check(*look),
{
    match &look.state {
        ModelPathState::Directory => pass(
            "models.path",
            "models",
            "Configured model directory is available.",
            Some(look.path.clone()),
        ),
        ModelPathState::NotDirectory => flag(
            "models.path_invalid",
            "models",
            DoctorStatus::Warning,
            "A configured model path is not a directory.",
            Some(look.path.clone()),
            MODELS_REMEDIATION,
        ),
        ModelPathState::Missing => flag(
            "models.path_missing",
            "models",
            DoctorStatus::Warning,
            "A configured model directory is missing.",
            Some(look.path.clone()),
            MODELS_REMEDIATION,
        ),
        ModelPathState::Inaccessible(error) => flag(
            "models.path_inaccessible",
            "models",
            DoctorStatus::Warning,
            "A configured model directory is inaccessible.",
            Some(cat3(look.path.as_str(), ": ", error.as_str())),
            "Restore read and traversal access, then run `norted-server models list`.",
        ),
    }
}

pub open spec fn model_warning_check(warning: Seq<char>) -> FindingView {
    flagged(
        "models.registry_warning"@,
        "models"@,
        DoctorStatus::Warning,
        "A local model artifact or Norted package was rejected."@,
        Some(bounded(warning)),
        "Run:\n  norted-server models list\nRebuild obsolete schema-5 q27/NInfer packages with current Norted packaging tools when reported."@,
    )
}

pub open spec fn model_count_check(count: u64) -> FindingView {
    if count == 0 {
        flagged(
            "models.none"@,
            "models"@,
            DoctorStatus::Warning,
            "No recognized local models were discovered."@,
            None,
            MODELS_REMEDIATION@,
        )
    } else {
        passed(
            "models.discovery"@,
            "models"@,
            decimal(count as nat) + " local model artifact(s) were discovered."@,
            None,
        )
    }
}

pub open spec fn model_checks(
    paths: Seq<ModelPathLook>,
    warnings: Seq<Seq<char>>,
    count: u64,
) -> Seq<FindingView> {
    Seq::new(paths.len(), |i: int| model_path_check(paths[i])) + Seq::new(
        warnings.len(),
        |i: int| model_warning_check(warnings[i]),
    ) + seq![model_count_check(count)]
}

/// Checks the directories that models are looked for in, and what was found in them.
pub fn inspect_models(paths: &Vec<ModelPathLook>, warnings: &Vec<String>, count: u64) -> (result:
    Vec<DoctorFinding>)
    ensures
        views(result@) == model_checks(paths@, views(warnings@), count),
{
    let ghost said = views(warnings@);
    let ghost first = Seq::new(paths@.len(), |i: int| model_path_check(paths@[i]));
    let ghost second = Seq::new(said.len(), |i: int| model_warning_check(said[i]));
    let mut checks: Vec<DoctorFinding> = Vec::new();
    let mut i: usize = 0;
    proof {
        assert(views(checks@) =~= first.take(0));
    }
    while i < paths.len()
        invariant
            i <= paths@.len(),
            first == Seq::new(paths@.len(), |k: int| model_path_check(paths@[k])),
            views(checks@) == first.take(i as int),
        decreases paths@.len() - i,
    {
        let check = model_path_finding(&paths[i]);
        proof {
            lemma_views_push(checks@, check);
            assert(first.take(i + 1) =~= first.take(i as int).push(first[i as int]));
        }
        checks.push(check);
        i += 1;
    }
    let mut j: usize = 0;
    proof {
        assert(first.take(first.len() as int) =~= first);
        assert(first + second.take(0) =~= first);
    }
    while j < warnings.len()
        invariant
            j <= warnings@.len(),
            said == views(warnings@),
            second == Seq::new(said.len(), |k: int| model_warning_check(said[k])),
            views(checks@) == first + second.take(j as int),
        decreases warnings@.len() - j,
    {
        let check = flag(
            "models.registry_warning",
            "models",
            DoctorStatus::Warning,
            "A local model artifact or Norted package was rejected.",
            Some(bounded_detail(warnings[j].as_str())),
            "Run:\n  norted-server models list\nRebuild obsolete schema-5 q27/NInfer packages with current Norted packaging tools when reported.",
        );
        proof {
            lemma_views_push(checks@, check);
            assert(said[j as int] == warnings@[j as int]@);
            assert(second.take(j + 1) =~= second.take(j as int).push(second[j as int]));
            assert((first + second.take(j as int)).push(check@) =~= first + second.take(j + 1));
        }
        checks.push(check);
        j += 1;
    }
    let last = if count == 0 {
        flag(
            "models.none",
            "models",
            DoctorStatus::Warning,
            "No recognized local models were discovered.",
            None,
            MODELS_REMEDIATION,
        )
    } else {
        pass(
            "models.discovery",
            "models",
            cat2(
                decimal_text(count).as_str(),
                " local model artifact(s) were discovered.",
            ).as_str(),
            None,
        )
    };
    proof {
        assert(second.take(second.len() as int) =~= second);
        lemma_views_push(checks@, last);
        assert((first + second).push(last@) =~= first + second + seq![last@]);
    }
    checks.push(last);
    checks
}

/// What is said of the models where there is no configuration.
pub open spec fn models_skipped() -> FindingView {
    flagged(
        "models.skipped"@,
        "models"@,
        DoctorStatus::Warning,
        "Model discovery could not use configured paths because configuration is invalid."@,
        None,
        MODELS_REMEDIATION@,
    )
}

pub fn skip_models() -> (result: DoctorFinding)
    ensures
        result@ == models_skipped(),
{
    flag(
        "models.skipped",
        "models",
        DoctorStatus::Warning,
        "Model discovery could not use configured paths because configuration is invalid.",
        None,
        MODELS_REMEDIATION,
    )
}

/// What is seen of a server that may be running.
#[derive(Debug)]
pub enum ControlLook {
    Verified { lifecycle: BackendLifecycle, failure: Option<String> },
    Unverified(String),
    Stopped,
    Unknown(String),
}

pub open spec fn control_check(look: ControlLook) -> FindingView {
    match look {
        ControlLook::Verified { lifecycle, failure } => if lifecycle == BackendLifecycle::Failed {
            flagged(
                "control.backend_failed"@,
                "control"@,
                DoctorStatus::Fail,
                "The running Server backend is in a failed lifecycle."@,
                bounded_optional(optional(failure)),
                "Review recent Server logs and unload or retry the Model Profile explicitly after correcting the reported cause."@,
            )
        } else {
            passed(
                "control.healthy"@,
                "control"@,
                "A running Norted Server passed authenticated private-control verification."@,
                Some("Backend lifecycle: "@ + lifecycle.name_text() + "."@),
            )
        },
        ControlLook::Unverified(error) => flagged(
            "control.unhealthy"@,
            "control"@,
            DoctorStatus::Fail,
            "A Norted public endpoint was found, but authenticated private control could not be verified."@,
            Some(bounded(error@)),
            "Do not start a competing Server. Inspect the existing process and private runtime state."@,
        ),
        ControlLook::Stopped => passed(
            "control.stopped"@,
            "control"@,
            "No Norted Server is running; this is a normal stopped state."@,
            None,
        ),
        ControlLook::Unknown(error) => flagged(
            "control.discovery_failed"@,
            "control"@,
            DoctorStatus::Warning,
            "Existing Server ownership could not be safely determined."@,
            Some(bounded(error@)),
            "Inspect the runtime state directory and retry before starting another Server."@,
        ),
    }
}

/// The address that the server is to bind, and what came of trying it.
#[derive(Debug)]
pub struct BindLook {
    pub address: String,
    pub error: Option<String>,
}

/// Whether the address is to be tried: only where no server is running.
pub fn tries_bind(look: &ControlLook) -> (result: bool)
    ensures
        result == (*look is Stopped),
{
    match look {
        ControlLook::Stopped => true,
        _ => false,
    }
}

pub open spec fn bind_checks(look: ControlLook, bind: Option<BindLook>) -> Seq<FindingView> {
    match bind {
        None => Seq::empty(),
        Some(bind) => if look is Verified {
            seq![
                passed(
                    "network.bind"@,
                    "network"@,
                    "Configured address "@ + bind.address@
                        + " is owned by the verified Norted Server."@,
                    None,
                ),
            ]
        } else if look is Stopped {
            match bind.error {
                None => seq![
                    passed(
                        "network.bind"@,
                        "network"@,
                        "Configured address "@ + bind.address@ + " is currently available."@,
                        None,
                    ),
                ],
                Some(error) => seq![
                    flagged(
                        "network.bind_unavailable"@,
                        "network"@,
                        DoctorStatus::Fail,
                        "Configured address "@ + bind.address@
                            + " is unavailable to Norted Server."@,
                        Some(error@),
                        "Choose an available server.host/server.port or stop the different process occupying this address."@,
                    ),
                ],
            }
        } else {
            Seq::empty()
        },
    }
}

fn control_finding(look: &ControlLook) -> (result: DoctorFinding)
    ensures
        result@ == control_check(*look),
{
    match look {
        ControlLook::Verified { lifecycle, failure } => {
            if *lifecycle == BackendLifecycle::Failed {
                let detail = match failure {
                    Some(failure) => Some(bounded_detail(failure.as_str())),
                    None => None,
                };
                flag(
                    "control.backend_failed",
                    "control",
                    DoctorStatus::Fail,
                    "The running Server backend is in a failed lifecycle.",
                    detail,
                    "Review recent Server logs and unload or retry the Model Profile explicitly after correcting the reported cause.",
                )
            } else {
                pass(
                    "control.healthy",
                    "control",
                    "A running Norted Server passed authenticated private-control verification.",
                    Some(cat3("Backend lifecycle: ", lifecycle.name(), ".")),
                )
            }
        },
        ControlLook::Unverified(error) => flag(
            "control.unhealthy",
            "control",
            DoctorStatus::Fail,
            "A Norted public endpoint was found, but authenticated private control could not be verified.",
            Some(bounded_detail(error.as_str())),
            "Do not start a competing Server. Inspect the existing process and private runtime state.",
        ),
        ControlLook::Stopped => pass(
            "control.stopped",
            "control",
            "No Norted Server is running; this is a normal stopped state.",
            None,
        ),
        ControlLook::Unknown(error) => flag(
            "control.discovery_failed",
            "control",
            DoctorStatus::Warning,
            "Existing Server ownership could not be safely determined.",
            Some(bounded_detail(error.as_str())),
            "Inspect the runtime state directory and retry before starting another Server.",
        ),
    }
}

/// Checks a server that may be running, and the address that is configured.
pub fn inspect_control_and_bind(look: &ControlLook, bind: &Option<BindLook>) -> (result: Vec<
    DoctorFinding,
>)
    ensures
        views(result@) == seq![control_check(*look)] + bind_checks(*look, *bind),
{
    let mut checks = list1(control_finding(look));
    let ghost first = views(checks@);
    match bind {
        None => {
            proof {
                assert(first + Seq::<FindingView>::empty() =~= first);
            }
        },
        Some(bind) => {
            let address = bind.address.as_str();
            match look {
                ControlLook::Verified { lifecycle: _, failure: _ } => {
                    extend(
                        &mut checks,
                        list1(
                            pass(
                                "network.bind",
                                "network",
                                cat3(
                                    "Configured address ",
                                    address,
                                    " is owned by the verified Norted Server.",
                                ).as_str(),
                                None,
                            ),
                        ),
                    );
                },
                ControlLook::Stopped => {
                    let check = match &bind.error {
                        None => pass(
                            "network.bind",
                            "network",
                            cat3(
                                "Configured address ",
                                address,
                                " is currently available.",
                            ).as_str(),
                            None,
                        ),
                        Some(error) => flag(
                            "network.bind_unavailable",
                            "network",
                            DoctorStatus::Fail,
                            cat3(
                                "Configured address ",
                                address,
                                " is unavailable to Norted Server.",
                            ).as_str(),
                            Some(error.clone()),
                            "Choose an available server.host/server.port or stop the different process occupying this address.",
                        ),
                    };
                    extend(&mut checks, list1(check));
                },
                _ => {
                    proof {
                        assert(first + Seq::<FindingView>::empty() =~= first);
                    }
                },
            }
        },
    }
    checks
}

/// What is known of an accelerator. Its memory is given as it is shown.
#[derive(Debug)]
pub struct AcceleratorFacts {
    pub accelerator: String,
    pub name: Option<String>,
    pub stable_id: Option<String>,
    pub vram: Option<String>,
    pub driver_version: Option<String>,
    pub compute_capability: Option<String>,
}

/// What is known of the host.
#[derive(Debug)]
pub struct HostFacts {
    pub platform: String,
    pub architecture: String,
    pub accelerators: Vec<AcceleratorFacts>,
    pub nvidia_gpu_absence_confirmed: bool,
    pub observations: Vec<String>,
}

pub open spec fn platform_check(host: HostFacts) -> FindingView {
    passed(
        "host.platform"@,
        "host"@,
        "Host platform is "@ + host.platform@ + " / "@ + host.architecture@ + "."@,
        None,
    )
}

/// A text with something around it, if it is there.
pub open spec fn fact(before: Seq<char>, text: Option<String>, behind: Seq<char>) -> Seq<Seq<char>> {
    match text {
        Some(text) => seq![before + text@ + behind],
        None => Seq::empty(),
    }
}

pub open spec fn accelerator_facts(device: AcceleratorFacts) -> Seq<Seq<char>> {
    fact("UUID "@, device.stable_id, ""@) + fact(""@, device.vram, " VRAM"@) + fact(
        "driver "@,
        device.driver_version,
        ""@,
    ) + fact("compute "@, device.compute_capability, ""@)
}

pub open spec fn accelerator_check(device: AcceleratorFacts, index: int) -> FindingView {
    let facts = accelerator_facts(device);
    passed(
        "host.nvidia."@ + decimal(index as nat),
        "host"@,
        "NVIDIA GPU: "@ + match device.name {
            Some(name) => name@,
            None => "unnamed device"@,
        } + "."@,
        if facts.len() == 0 {
            None
        } else {
            Some(joined(facts, ", "@))
        },
    )
}

pub open spec fn accelerator_checks(host: HostFacts) -> Seq<FindingView> {
    if host.accelerators@.len() == 0 {
        seq![
            passed(
                "host.nvidia"@,
                "host"@,
                if host.nvidia_gpu_absence_confirmed {
                    "No NVIDIA GPU is present; this is not intrinsically a problem."@
                } else {
                    "No NVIDIA GPU was observed; capability remains unknown and is not intrinsically a problem."@
                },
                if host.observations@.len() > 0 {
                    Some(host.observations@[0]@)
                } else {
                    None
                },
            ),
        ]
    } else {
        Seq::new(
            host.accelerators@.len(),
            |i: int| accelerator_check(host.accelerators@[i], i),
        )
    }
}

pub fn add_basic_host_facts(host: &HostFacts) -> (result: DoctorFinding)
    ensures
        result@ == platform_check(*host),
{
    pass(
        "host.platform",
        "host",
        cat5(
            "Host platform is ",
            host.platform.as_str(),
            " / ",
            host.architecture.as_str(),
            ".",
        ).as_str(),
        None,
    )
}

fn add_fact(facts: &mut Vec<String>, before: &str, text: &Option<String>, behind: &str)
    ensures
        views(final(facts)@) == views(old(facts)@) + fact(before@, *text, behind@),
{
    let ghost first = views(facts@);
    match text {
        Some(text) => {
            let line = cat3(before, text.as_str(), behind);
            proof {
                lemma_views_push(facts@, line);
                assert(first.push(line@) =~= first + seq![line@]);
            }
            facts.push(line);
        },
        None => {
            proof {
                assert(first + Seq::<Seq<char>>::empty() =~= first);
            }
        },
    }
}

fn accelerator_finding(device: &AcceleratorFacts, index: usize) -> (result: DoctorFinding)
    ensures
        result@ == accelerator_check(*device, index as int),
{
    let mut facts: Vec<String> = Vec::new();
    let ghost none = views(facts@);
    add_fact(&mut facts, "UUID ", &device.stable_id, "");
    add_fact(&mut facts, "", &device.vram, " VRAM");
    add_fact(&mut facts, "driver ", &device.driver_version, "");
    add_fact(&mut facts, "compute ", &device.compute_capability, "");
    proof {
        assert(none =~= Seq::empty());
        assert(views(facts@) =~= accelerator_facts(*device));
    }
    let name = match &device.name {
        Some(name) => name.as_str(),
        None => "unnamed device",
    };
    let detail = if facts.len() == 0 {
        None
    } else {
        Some(join(&facts, ", "))
    };
    pass(
        cat2("host.nvidia.", decimal_text(index as u64).as_str()).as_str(),
        "host",
        cat3("NVIDIA GPU: ", name, ".").as_str(),
        detail,
    )
}

pub fn add_accelerator_facts(host: &HostFacts) -> (result: Vec<DoctorFinding>)
    ensures
        views(result@) == accelerator_checks(*host),
{
    if host.accelerators.len() == 0 {
        let message = if host.nvidia_gpu_absence_confirmed {
            "No NVIDIA GPU is present; this is not intrinsically a problem."
        } else {
            "No NVIDIA GPU was observed; capability remains unknown and is not intrinsically a problem."
        };
        let detail = if host.observations.len() > 0 {
            Some(host.observations[0].clone())
        } else {
            None
        };
        return list1(pass("host.nvidia", "host", message, detail));
    }
    let ghost expected = accelerator_checks(*host);
    let mut checks: Vec<DoctorFinding> = Vec::new();
    let mut i: usize = 0;
    proof {
        assert(views(checks@) =~= expected.take(0));
    }
    while i < host.accelerators.len()
        invariant
            host.accelerators@.len() > 0,
            i <= host.accelerators@.len(),
            expected == accelerator_checks(*host),
            views(checks@) == expected.take(i as int),
        decreases host.accelerators@.len() - i,
    {
        let check = accelerator_finding(&host.accelerators[i], i);
        proof {
            lemma_views_push(checks@, check);
            assert(expected.take(i + 1) =~= expected.take(i as int).push(expected[i as int]));
        }
        checks.push(check);
        i += 1;
    }
    proof {
        assert(expected.take(expected.len() as int) =~= expected);
    }
    checks
}

/// Whether a host can build runtimes from source, so that the tools for that are looked for.
pub open spec fn builds_runtimes(host: HostFacts) -> bool {
    host.platform@ == "linux"@ && host.architecture@ == "x86_64"@ && exists|i: int|
        0 <= i < host.accelerators@.len() && (#[trigger] host.accelerators@[i]).accelerator@
            == "cuda"@
}

pub fn wants_toolchain(host: &HostFacts) -> (result: bool)
    ensures
        result == builds_runtimes(*host),
{
    if !same(host.platform.as_str(), "linux") || !same(host.architecture.as_str(), "x86_64") {
        return false;
    }
    let mut i: usize = 0;
    while i < host.accelerators.len()
        invariant
            i <= host.accelerators@.len(),
            host.platform@ == "linux"@,
            host.architecture@ == "x86_64"@,
            forall|k: int|
                0 <= k < i ==> (#[trigger] host.accelerators@[k]).accelerator@ != "cuda"@,
        decreases host.accelerators@.len() - i,
    {
        if same(host.accelerators[i].accelerator.as_str(), "cuda") {
            return true;
        }
        i += 1;
    }
    false
}

/// A tool that source builds need.
#[derive(Debug)]
pub struct Tool {
    pub code: String,
    pub label: String,
    pub executable: String,
}

/// The tools that source builds need: their codes, their names and their programs.
pub open spec fn tools() -> Seq<(Seq<char>, Seq<char>, Seq<char>)> {
    seq![
        ("git"@, "Git"@, "git"@),
        ("cuda_compiler"@, "CUDA compiler"@, "/usr/local/cuda/bin/nvcc"@),
        ("cmake"@, "CMake"@, "cmake"@),
        ("ninja"@, "Ninja"@, "ninja"@),
        ("make"@, "Make"@, "make"@),
        ("cxx"@, "C++ compiler"@, "g++"@),
        ("pkg_config"@, "pkg-config"@, "pkg-config"@),
    ]
}

pub open spec fn tool_views(list: Seq<Tool>) -> Seq<(Seq<char>, Seq<char>, Seq<char>)> {
    list.map_values(|tool: Tool| (tool.code@, tool.label@, tool.executable@))
}

fn make_tool(code: &str, label: &str, executable: &str) -> (result: Tool)
    ensures
        (result.code@, result.label@, result.executable@) == (code@, label@, executable@),
{
    Tool {
        code: code.to_owned(),
        label: label.to_owned(),
        executable: executable.to_owned(),
    }
}

pub fn source_tools() -> (result: Vec<Tool>)
    ensures
        tool_views(result@) == tools(),
{
    let list = vec![
        make_tool("git", "Git", "git"),
        make_tool("cuda_compiler", "CUDA compiler", "/usr/local/cuda/bin/nvcc"),
        make_tool("cmake", "CMake", "cmake"),
        make_tool("ninja", "Ninja", "ninja"),
        make_tool("make", "Make", "make"),
        make_tool("cxx", "C++ compiler", "g++"),
        make_tool("pkg_config", "pkg-config", "pkg-config"),
    ];
    proof {
        assert(tool_views(list@) =~= tools());
    }
    list
}

pub open spec fn tool_check(
    tool: (Seq<char>, Seq<char>, Seq<char>),
    version: Result<String, String>,
) -> FindingView {
    match version {
        Ok(version) => passed(
            "host.toolchain."@ + tool.0,
            "host_toolchain"@,
            tool.1 + " is available."@,
            Some(version@),
        ),
        Err(error) => flagged(
            "host.toolchain."@ + tool.0 + "_missing"@,
            "host_toolchain"@,
            DoctorStatus::Warning,
            if tool.0 == "cuda_compiler"@ {
                "CUDA compiler is unavailable at /usr/local/cuda/bin/nvcc."@
            } else {
                tool.1 + " is unavailable."@
            },
            Some(bounded(error@)),
            "Managed Linux CUDA source-runtime installation may report Needs Attention. Norted-Utils can prepare a supported host."@,
        ),
    }
}

fn tool_finding(tool: &Tool, version: &Result<String, String>) -> (result: DoctorFinding)
    ensures
        result@ == tool_check((tool.code@, tool.label@, tool.executable@), *version),
{
    match version {
        Ok(version) => pass(
            cat2("host.toolchain.", tool.code.as_str()).as_str(),
            "host_toolchain",
            cat2(tool.label.as_str(), " is available.").as_str(),
            Some(version.clone()),
        ),
        Err(error) => {
            let message = if same(tool.code.as_str(), "cuda_compiler") {
                "CUDA compiler is unavailable at /usr/local/cuda/bin/nvcc.".to_owned()
            } else {
                cat2(tool.label.as_str(), " is unavailable.")
            };
            flag(
                cat3("host.toolchain.", tool.code.as_str(), "_missing").as_str(),
                "host_toolchain",
                DoctorStatus::Warning,
                message.as_str(),
                Some(bounded_detail(error.as_str())),
                "Managed Linux CUDA source-runtime installation may report Needs Attention. Norted-Utils can prepare a supported host.",
            )
        },
    }
}

pub open spec fn toolchain_checks(host: HostFacts, versions: Seq<Result<String, String>>) -> Seq<
    FindingView,
> {
    if builds_runtimes(host) {
        Seq::new(tools().len(), |i: int| tool_check(tools()[i], versions[i]))
    } else {
        Seq::empty()
    }
}

/// Checks the tools that source builds need, where the host can use them.
pub fn inspect_source_toolchain(host: &HostFacts, versions: &Vec<Result<String, String>>) -> (result:
    Vec<DoctorFinding>)
    requires
        builds_runtimes(*host) ==> versions@.len() == tools().len(),
    ensures
        views(result@) == toolchain_checks(*host, versions@),
{
    let mut checks: Vec<DoctorFinding> = Vec::new();
    proof {
        assert(views(checks@) =~= Seq::empty());
    }
    if !wants_toolchain(host) {
        return checks;
    }
    let ghost expected = toolchain_checks(*host, versions@);
    let list = source_tools();
    let mut i: usize = 0;
    proof {
        assert(tool_views(list@).len() == list@.len());
        assert(views(checks@) =~= expected.take(0));
    }
    while i < list.len()
        invariant
            i <= list@.len(),
            builds_runtimes(*host),
            tool_views(list@) == tools(),
            list@.len() == tools().len(),
            versions@.len() == tools().len(),
            expected == toolchain_checks(*host, versions@),
            views(checks@) == expected.take(i as int),
        decreases list@.len() - i,
    {
        let check = tool_finding(&list[i], &versions[i]);
        proof {
            lemma_views_push(checks@, check);
            assert(tool_views(list@)[i as int] == tools()[i as int]);
            assert(expected.take(i + 1) =~= expected.take(i as int).push(expected[i as int]));
        }
        checks.push(check);
        i += 1;
    }
    proof {
        assert(expected.take(expected.len() as int) =~= expected);
    }
    checks
}

/// What came of asking a program for its version.
#[derive(Debug)]
pub enum CommandLook {
    TimedOut,
    Unavailable(String),
    Exited(String),
    Answered { stdout: Vec<u8>, stderr: Vec<u8> },
}

/// The first line of a text, if it has any.
pub open spec fn first_line(text: Seq<char>) -> Option<Seq<char>> {
    if text.len() == 0 {
        None
    } else {
        match text.index_of_first('\n') {
            Some(at) => Some(text.take(at)),
            None => Some(text),
        }
    }
}

pub open spec fn version_of(executable: Seq<char>, look: CommandLook) -> Result<Seq<char>, Seq<char>> {
    match look {
        CommandLook::TimedOut => Err("`"@ + executable + " --version` timed out"@),
        CommandLook::Unavailable(error) => Err(error@),
        CommandLook::Exited(status) => Err(
            "`"@ + executable + " --version` exited with "@ + status@,
        ),
        CommandLook::Answered { stdout, stderr } => Ok(
            bounded(
                match first_line(
                    lossy_text(
                        if stdout@.len() == 0 {
                            stderr@
                        } else {
                            stdout@
                        },
                    ),
                ) {
                    Some(line) => line,
                    None => "version observed"@,
                },
            ),
        ),
    }
}

fn take_first_line(text: &str) -> (result: Option<String>)
    ensures
        optional(result) == first_line(text@),
{
    let chars = chars_of(text);
    if chars.len() == 0 {
        return None;
    }
    proof {
        text@.index_of_first_ensures('\n');
    }
    match find_char(&chars, 0, '\n') {
        Some(at) => {
            let line = text_between(&chars, 0, at);
            proof {
                let first = text@.index_of_first('\n')->0;
                assert(text@.contains('\n')) by {
                    assert(text@[at as int] == '\n');
                }
                assert(first == at) by {
                    if first < at {
                        assert(text@[first] != '\n');
                    }
                }
                assert(line@ =~= text@.take(first));
            }
            Some(line)
        },
        None => Some(text.to_owned()),
    }
}

pub fn command_version(executable: &str, look: &CommandLook) -> (result: Result<String, String>)
    ensures
        match (result, version_of(executable@, *look)) {
            (Ok(version), Ok(expected)) => version@ == expected,
            (Err(error), Err(expected)) => error@ == expected,
            _ => false,
        },
{
    match look {
        CommandLook::TimedOut => Err(cat3("`", executable, " --version` timed out")),
        CommandLook::Unavailable(error) => Err(error.clone()),
        CommandLook::Exited(status) => Err(
            cat4("`", executable, " --version` exited with ", status.as_str()),
        ),
        CommandLook::Answered { stdout, stderr } => {
            let text = if stdout.len() == 0 {
                text_from_utf8_lossy(stderr.as_slice())
            } else {
                text_from_utf8_lossy(stdout.as_slice())
            };
            match take_first_line(text.as_str()) {
                Some(line) => Ok(bounded_detail(line.as_str())),
                None => Ok(bounded_detail("version observed")),
            }
        },
    }
}

pub open spec fn bool_word(value: bool) -> Seq<char> {
    if value {
        "true"@
    } else {
        "false"@
    }
}

pub open spec fn terminal_check(stdin_tty: bool, stdout_tty: bool) -> FindingView {
    passed(
        "terminal.mode"@,
        "terminal"@,
        "Terminal mode is valid for interactive or headless operation."@,
        Some("stdin_tty="@ + bool_word(stdin_tty) + ", stdout_tty="@ + bool_word(stdout_tty)),
    )
}

pub(crate) fn bool_text(value: bool) -> (result: &'static str)
    ensures
        result@ == bool_word(value),
{
    if value {
        "true"
    } else {
        "false"
    }
}

pub fn add_terminal_facts(stdin_tty: bool, stdout_tty: bool) -> (result: DoctorFinding)
    ensures
        result@ == terminal_check(stdin_tty, stdout_tty),
{
    pass(
        "terminal.mode",
        "terminal",
        "Terminal mode is valid for interactive or headless operation.",
        Some(
            cat4("stdin_tty=", bool_text(stdin_tty), ", stdout_tty=", bool_text(stdout_tty)),
        ),
    )
}

/// A directory is in order where it can be written to or could be created, and nowhere else.
pub proof fn law_directories_must_be_usable(
    code: Seq<char>,
    label: Seq<char>,
    path: Seq<char>,
    look: DirectoryLook,
)
    ensures
        ({
            let check = directory_check(code, label, path, look);
            &&& check.code == code
            &&& check.status == DoctorStatus::Pass <==> look is Writable || look is Creatable
            &&& check.status == DoctorStatus::Fail <==> look is NotDirectory || look is Unwritable
                || look is Uncreatable || look is Inaccessible
        }),
{
}

/// On the way up the first thing that is there decides: a directory is what was looked for, anything else
/// is an error, and so is the end.
pub proof fn law_nearest_directory_is_found(looks: Seq<ParentLook>, at: int)
    requires
        0 <= at,
    ensures
        match nearest_directory(looks, at) {
            Ok(found) => at <= found < looks.len() && looks[found] is Directory && forall|i: int|
                at <= i < found ==> (#[trigger] looks[i]) is Missing,
            Err(_) => (forall|i: int| at <= i < looks.len() ==> (#[trigger] looks[i]) is Missing)
                || exists|found: int|
                at <= found < looks.len() && #[trigger] stops_at(looks, at, found),
        },
    decreases looks.len() - at,
{
    if at < looks.len() {
        if looks[at] is Missing {
            law_nearest_directory_is_found(looks, at + 1);
            if nearest_directory(looks, at) is Err && !(forall|i: int|
                at <= i < looks.len() ==> (#[trigger] looks[i]) is Missing) {
                assert(!(forall|i: int|
                    at + 1 <= i < looks.len() ==> (#[trigger] looks[i]) is Missing));
                let found = choose|found: int|
                    at + 1 <= found < looks.len() && #[trigger] stops_at(looks, at + 1, found);
                assert(stops_at(looks, at, found));
            }
        } else if !(looks[at] is Directory) {
            assert(stops_at(looks, at, at));
        }
    }
}

/// Whether something that is no usable directory is the first thing on the way up.
pub open spec fn stops_at(looks: Seq<ParentLook>, at: int, found: int) -> bool {
    &&& looks[found] is NotDirectory || looks[found] is Inaccessible
    &&& forall|i: int| at <= i < found ==> (#[trigger] looks[i]) is Missing
}

/// A configuration passes where there is none or where it can be read, is of the syntax and is valid; and
/// where it does not, the last check tells at which of these it fails.
pub proof fn law_configurations_are_judged(file: Seq<char>, look: ConfigLook)
    ensures
        has_config(look) <==> forall|i: int|
            0 <= i < config_checks(file, look).len() ==> (
            #[trigger] config_checks(file, look)[i]).status == DoctorStatus::Pass,
        has_config(look) <==> config_checks(file, look).last().status == DoctorStatus::Pass,
        look is Unreadable ==> config_checks(file, look).last().code == "config.readable"@,
        look matches ConfigLook::Read { text, loaded } ==> {
            &&& has_config(look) <==> toml_fault(text@) is None && loaded is Valid
            &&& toml_fault(text@) is Some ==> config_checks(file, look).last().code
                == "config.toml"@
            &&& toml_fault(text@) is None && loaded is Invalid ==> config_checks(
                file,
                look,
            ).last().code == "config.schema"@
        },
{
    let checks = config_checks(file, look);
    assert(checks.last() == checks[checks.len() - 1]);
}

/// Authentication fails where it is required without keys, is warned of where it is switched off for other
/// hosts, and passes otherwise.
pub proof fn law_authentication_is_judged(status: PublicAuthStatus)
    ensures
        ({
            let check = auth_policy_check(status);
            &&& check.status == DoctorStatus::Fail <==> !status.bind_allowed
            &&& check.status == DoctorStatus::Warning <==> status.bind_allowed
                && status.insecure_remote
            &&& check.status == DoctorStatus::Pass <==> status.bind_allowed
                && !status.insecure_remote
            &&& !status.bind_allowed ==> check.code == "auth.required_without_keys"@
            &&& status.bind_allowed && status.insecure_remote ==> check.code
                == "auth.remote_insecure"@
        }),
        server_auth_checks(Ok(status)).len() == 2,
        server_auth_checks(Ok(status))[0].status == DoctorStatus::Pass,
        server_auth_checks(Ok(status))[1] == auth_policy_check(status),
        forall|error: String| (#[trigger] server_auth_checks(Err(error))).len() == 1
            && server_auth_checks(Err(error))[0].status == DoctorStatus::Fail,
        auth_skipped().status == DoctorStatus::Warning,
{
}

/// The stores of keys, settings, profiles and engines fail where they cannot be read; a store of profiles
/// that holds none is warned of.
pub proof fn law_stores_of_the_server_are_judged(
    path: Seq<char>,
    look: StoreLook,
    is_there: bool,
    error: Option<Seq<char>>,
    registered: Result<u64, String>,
)
    ensures
        key_store_check(path, look).status == DoctorStatus::Pass <==> look is Valid,
        key_store_check(path, look).status == DoctorStatus::Fail <==> look is Invalid,
        settings_check(path, is_there, error).status == DoctorStatus::Pass <==> error is None,
        settings_check(path, is_there, error).status == DoctorStatus::Fail <==> error is Some,
        profiles_check(path, look).status == DoctorStatus::Fail <==> look is Invalid,
        profiles_check(path, look).status == DoctorStatus::Warning <==> look
            == StoreLook::Valid(0),
        registry_check(registered).status == DoctorStatus::Pass <==> registered is Ok,
        registry_check(registered).status == DoctorStatus::Fail <==> registered is Err,
{
}

/// A value is wrong where its setting is not known, where it is set for an engine that it is not for, or
/// where it has a fault of its own.
pub proof fn law_wrong_values_are_told(
    entries: Seq<PatchEntry>,
    engine: Option<Seq<char>>,
    definitions: Seq<Seq<char>>,
    count: int,
)
    requires
        0 <= count <= entries.len(),
    ensures
        patch_errors(entries, engine, definitions, count).len() == 0 <==> forall|i: int|
            0 <= i < count ==> definitions.contains((#[trigger] entries[i]).id@) && (engine is Some
                ==> entries[i].applies) && entries[i].fault is None,
        patch_errors(entries, engine, definitions, count).len() <= count,
    decreases count,
{
    if count > 0 {
        law_wrong_values_are_told(entries, engine, definitions, count - 1);
    }
}

/// Settings pass exactly where every value that is set for all engines is right, and each engine for which
/// something is set is registered and all of that is right; else each fault is a failure of its own.
pub proof fn law_settings_are_judged(
    globals: Seq<PatchEntry>,
    engines: Seq<EnginePatch>,
    definitions: Vec<String>,
)
    ensures
        ({
            let known = views(definitions@);
            let checks = setting_checks(globals, engines, Ok(definitions));
            let errors = setting_errors(globals, engines, known);
            &&& errors.len() == 0 <==> (forall|i: int|
                0 <= i < globals.len() ==> known.contains((#[trigger] globals[i]).id@)
                    && globals[i].fault is None) && (forall|k: int|
                0 <= k < engines.len() ==> #[trigger] is_right(engines[k], known))
            &&& errors.len() == 0 ==> checks.len() == 1 && checks[0].status == DoctorStatus::Pass
            &&& errors.len() > 0 ==> checks.len() == errors.len() && forall|i: int|
                0 <= i < errors.len() ==> (#[trigger] checks[i]).status == DoctorStatus::Fail
                    && checks[i].detail == Some(errors[i])
        }),
{
    let known = views(definitions@);
    law_wrong_values_are_told(globals, None, known, globals.len() as int);
    lemma_engine_errors(engines, known, engines.len() as int);
}

/// Whether an engine for which values are set is registered, and all the values are right.
pub open spec fn is_right(patch: EnginePatch, definitions: Seq<Seq<char>>) -> bool {
    &&& patch.registered
    &&& forall|i: int|
        0 <= i < patch.entries@.len() ==> definitions.contains((#[trigger] patch.entries@[i]).id@)
            && patch.entries@[i].applies && patch.entries@[i].fault is None
}

proof fn lemma_engine_errors(patches: Seq<EnginePatch>, definitions: Seq<Seq<char>>, count: int)
    requires
        0 <= count <= patches.len(),
    ensures
        engine_errors(patches, definitions, count).len() == 0 <==> forall|k: int|
            0 <= k < count ==> #[trigger] is_right(patches[k], definitions),
    decreases count,
{
    if count > 0 {
        lemma_engine_errors(patches, definitions, count - 1);
        let patch = patches[count - 1];
        law_wrong_values_are_told(
            patch.entries@,
            Some(patch.engine_id@),
            definitions,
            patch.entries@.len() as int,
        );
        assert(is_right(patch, definitions) <==> patch.registered && patch_errors(
            patch.entries@,
            Some(patch.engine_id@),
            definitions,
            patch.entries@.len() as int,
        ).len() == 0);
    }
}

/// An adapter fails where it cannot be probed, is warned of where its binary is unhealthy or badly
/// configured, and passes where there is none or a healthy one.
pub proof fn law_adapters_are_judged(adapter: AdapterLook)
    ensures
        ({
            let check = adapter_check(adapter);
            &&& adapter.probe is Err <==> check.status == DoctorStatus::Fail
            &&& adapter.probe matches Ok(probe) ==> {
                &&& check.status == DoctorStatus::Pass <==> probe.installation is NotInstalled
                    || probe.installation is Installed && probe.healthy
                &&& check.status == DoctorStatus::Warning <==> probe.installation is Invalid
                    || probe.installation is Installed && !probe.healthy
            }
            &&& check.code == "engine.adapter."@ + adapter.identity.id@
        }),
{
}

/// A place for models passes where it is a directory; that there are no models at all is warned of.
pub proof fn law_model_places_are_judged(look: ModelPathLook, count: u64)
    ensures
        model_path_check(look).status == DoctorStatus::Pass <==> look.state is Directory,
        model_path_check(look).status != DoctorStatus::Pass ==> model_path_check(look).status
            == DoctorStatus::Warning,
        look.state is NotDirectory ==> model_path_check(look).code == "models.path_invalid"@,
        look.state is Missing ==> model_path_check(look).code == "models.path_missing"@,
        look.state is Inaccessible ==> model_path_check(look).code == "models.path_inaccessible"@,
        model_count_check(count).status == DoctorStatus::Warning <==> count == 0,
        model_count_check(count).status == DoctorStatus::Pass <==> count > 0,
{
}

/// Each place for models and each warning is told of, and then how many models there are.
pub proof fn law_all_of_the_models_is_told(
    paths: Seq<ModelPathLook>,
    warnings: Seq<Seq<char>>,
    count: u64,
)
    ensures
        ({
            let checks = model_checks(paths, warnings, count);
            &&& checks.len() == paths.len() + warnings.len() + 1
            &&& forall|i: int|
                0 <= i < paths.len() ==> checks[i] == model_path_check(#[trigger] paths[i])
            &&& forall|i: int|
                0 <= i < warnings.len() ==> checks[paths.len() + i].status == DoctorStatus::Warning
                    && checks[paths.len() + i].detail == Some(bounded(#[trigger] warnings[i]))
            &&& checks.last() == model_count_check(count)
        }),
{
}

/// A server fails where it does not answer as one, or where its backend has failed; that nothing can be
/// told of it is warned of; and it passes where it runs or is stopped.
pub proof fn law_servers_are_judged(look: ControlLook)
    ensures
        ({
            let check = control_check(look);
            &&& look is Unverified ==> check.status == DoctorStatus::Fail && check.code
                == "control.unhealthy"@
            &&& look is Unknown ==> check.status == DoctorStatus::Warning && check.code
                == "control.discovery_failed"@
            &&& look is Stopped ==> check.status == DoctorStatus::Pass && check.code
                == "control.stopped"@
            &&& look matches ControlLook::Verified { lifecycle, .. } ==> (check.status
                == DoctorStatus::Fail <==> lifecycle == BackendLifecycle::Failed) && (check.status
                == DoctorStatus::Pass <==> lifecycle != BackendLifecycle::Failed)
        }),
{
}

/// The address is tried only where the server is stopped; where it runs, the address is its own; otherwise
/// nothing is said of it.
pub proof fn law_addresses_are_judged(look: ControlLook, bind: BindLook)
    ensures
        bind_checks(look, None).len() == 0,
        ({
            let checks = bind_checks(look, Some(bind));
            &&& checks.len() == 1 <==> look is Verified || look is Stopped
            &&& checks.len() == 0 <==> look is Unverified || look is Unknown
            &&& look is Verified ==> checks[0].status == DoctorStatus::Pass
            &&& look is Stopped ==> (checks[0].status == DoctorStatus::Pass <==> bind.error is None)
                && (checks[0].status == DoctorStatus::Fail <==> bind.error is Some)
        }),
{
}

/// That a host has no accelerator, or which ones it has, is never a problem; each is told of.
pub proof fn law_accelerators_are_told(host: HostFacts)
    ensures
        accelerator_checks(host).len() == if host.accelerators@.len() == 0 {
            1
        } else {
            host.accelerators@.len()
        },
        forall|i: int|
            0 <= i < accelerator_checks(host).len() ==> (
            #[trigger] accelerator_checks(host)[i]).status == DoctorStatus::Pass,
        platform_check(host).status == DoctorStatus::Pass,
{
}

/// What is known of an accelerator is told in this order: its identifier, its memory, its driver, and what
/// it can compute; what is not known is left out.
pub proof fn law_facts_of_accelerators(device: AcceleratorFacts)
    requires
        device.stable_id is Some,
        device.vram is Some,
        device.driver_version is Some,
        device.compute_capability is Some,
    ensures
        accelerator_facts(device) == seq![
            "UUID "@ + device.stable_id->0@,
            device.vram->0@ + " VRAM"@,
            "driver "@ + device.driver_version->0@,
            "compute "@ + device.compute_capability->0@,
        ],
        forall|before: Seq<char>, behind: Seq<char>| (#[trigger] fact(before, None, behind)).len()
            == 0,
{
    reveal_strlit("");
    assert("UUID "@ + device.stable_id->0@ + ""@ =~= "UUID "@ + device.stable_id->0@);
    assert(""@ + device.vram->0@ + " VRAM"@ =~= device.vram->0@ + " VRAM"@);
    assert("driver "@ + device.driver_version->0@ + ""@ =~= "driver "@ + device.driver_version->0@);
    assert("compute "@ + device.compute_capability->0@ + ""@ =~= "compute "@
        + device.compute_capability->0@);
}

/// The tools to build with are looked for on a Linux host of the right architecture that has a device for
/// CUDA, and nowhere else; a missing one is warned of.
pub proof fn law_tools_are_judged(host: HostFacts, versions: Seq<Result<String, String>>, i: int)
    requires
        0 <= i < tools().len(),
        versions.len() == tools().len(),
    ensures
        ({
            let checks = toolchain_checks(host, versions);
            let builds = host.platform@ == "linux"@ && host.architecture@ == "x86_64"@ && exists|
                k: int,
            |
                0 <= k < host.accelerators@.len() && (
                #[trigger] host.accelerators@[k]).accelerator@ == "cuda"@;
            &&& builds ==> checks.len() == 7
            &&& !builds ==> checks.len() == 0
            &&& builds ==> (checks[i].status == DoctorStatus::Pass <==> versions[i] is Ok) && (
            checks[i].status == DoctorStatus::Warning <==> versions[i] is Err)
            &&& builds && versions[i] is Ok ==> checks[i].detail == Some(versions[i]->Ok_0@)
        }),
{
}

/// The version of a tool is the first line of what it answers, of its error output only where there is
/// nothing else; it is not known where the tool does not answer.
pub proof fn law_versions_are_observed(executable: Seq<char>, look: CommandLook, line: Seq<char>, rest: Seq<char>)
    requires
        !line.contains('\n'),
    ensures
        version_of(executable, look) is Ok <==> look is Answered,
        first_line(line + seq!['\n'] + rest) == Some(line),
        line.len() > 0 ==> first_line(line) == Some(line),
        first_line(Seq::empty()) is None,
        look matches CommandLook::Answered { stdout, stderr } ==> (stdout@.len() > 0 && first_line(
            lossy_text(stdout@),
        ) is Some ==> version_of(executable, look) == Ok::<Seq<char>, Seq<char>>(
            bounded(first_line(lossy_text(stdout@))->0),
        )) && (stdout@.len() == 0 && first_line(lossy_text(stderr@)) is Some ==> version_of(
            executable,
            look,
        ) == Ok::<Seq<char>, Seq<char>>(bounded(first_line(lossy_text(stderr@))->0))),
{
    let text = line + seq!['\n'] + rest;
    text.index_of_first_ensures('\n');
    line.index_of_first_ensures('\n');
    assert(text[line.len() as int] == '\n');
    assert(text.contains('\n'));
    let at = text.index_of_first('\n')->0;
    if at < line.len() {
        assert(line[at] == '\n');
        assert(line.contains('\n'));
    }
    assert(at == line.len());
    assert(text.take(at) =~= line);
}

} // verus!
