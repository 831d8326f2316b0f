//! The command line, as it is understood.
use vstd::prelude::*;

use crate::lifecycle::ModelRole;
use crate::updates::RuntimeUpdatePreference;

verus! {

/// The updates to follow, as they are asked for.
#[derive(Debug, Clone, Copy, PartialEq, Eq, Structural)]
pub enum RuntimeUpdateTrack {
    Stable,
    Latest,
    Pinned,
}

impl Default for RuntimeUpdateTrack {
    fn default() -> (result: RuntimeUpdateTrack)
        ensures
            result == RuntimeUpdateTrack::Pinned,
    {
        RuntimeUpdateTrack::Pinned
    }
}

impl From<RuntimeUpdateTrack> for RuntimeUpdatePreference {
    fn from(value: RuntimeUpdateTrack) -> (result: RuntimeUpdatePreference) {
        match value {
            RuntimeUpdateTrack::Stable => RuntimeUpdatePreference::Stable,
            RuntimeUpdateTrack::Latest => RuntimeUpdatePreference::Latest,
            RuntimeUpdateTrack::Pinned => RuntimeUpdatePreference::Pinned,
        }
    }
}

impl vstd::std_specs::convert::FromSpecImpl<RuntimeUpdateTrack> for RuntimeUpdatePreference {
    open spec fn obeys_from_spec() -> bool {
        true
    }

    open spec fn from_spec(value: RuntimeUpdateTrack) -> RuntimeUpdatePreference {
        match value {
            RuntimeUpdateTrack::Stable => RuntimeUpdatePreference::Stable,
            RuntimeUpdateTrack::Latest => RuntimeUpdatePreference::Latest,
            RuntimeUpdateTrack::Pinned => RuntimeUpdatePreference::Pinned,
        }
    }
}

/// What is asked for, and whether it is told as JSON.
#[derive(Debug)]
pub struct Cli {
    pub json: bool,
    pub command: Option<Command>,
}

#[derive(Debug)]
pub enum Command {
    Prune(PruneArgs),
    Tui,
    Serve,
    Auth(AuthArgs),
    Status,
    Load { model_profile_id: String, runtime: Option<String>, settings: Vec<String> },
    Unload { model_profile_id: String },
    Models(ModelsArgs),
    Engines(EnginesArgs),
    Runtimes(RuntimesArgs),
    ModelProfiles(ModelProfilesArgs),
    Settings(SettingsArgs),
    Config(ConfigArgs),
    Doctor(DoctorArgs),
}

/// How storage is reclaimed: all of it or what is unused, for real or as a plan, asked or not.
#[derive(Debug)]
pub struct PruneArgs {
    pub all: bool,
    pub dry_run: bool,
    pub yes: bool,
}

#[derive(Debug)]
pub struct DoctorArgs {
    pub verbose: bool,
}

#[derive(Debug)]
pub struct ModelsArgs {
    pub command: ModelsCommand,
}

#[derive(Debug)]
pub enum ModelsCommand {
    List,
    Info { model_id: String },
    Search { query: Option<String>, format: Option<String> },
    Download { model_ref: String },
    Import { path: String },
    Remove { model_id: String },
}

#[derive(Debug)]
pub struct AuthArgs {
    pub command: AuthCommand,
}

#[derive(Debug)]
pub enum AuthCommand {
    Status,
    Keys(AuthKeysArgs),
}

#[derive(Debug)]
pub struct AuthKeysArgs {
    pub command: AuthKeysCommand,
}

#[derive(Debug)]
pub enum AuthKeysCommand {
    List,
    Create { name: Option<String> },
    Revoke { key_id: String },
}

#[derive(Debug)]
pub struct EnginesArgs {
    pub command: EnginesCommand,
}

#[derive(Debug)]
pub enum EnginesCommand {
    List,
}

#[derive(Debug)]
pub struct RuntimesArgs {
    pub command: RuntimesCommand,
}

#[derive(Debug)]
pub enum RuntimesCommand {
    List,
    Search { query: Option<String>, refresh: bool },
    Info { runtime_ref: String },
    Install { runtime_ref: String },
    Remove { runtime_ref: String },
    CheckUpdates,
    Update { runtime_ref: String },
    Select {
        format: Option<String>,
        model: Option<String>,
        track: RuntimeUpdateTrack,
        runtime_ref: String,
    },
    ClearSelection { format: Option<String>, model: Option<String> },
}

#[derive(Debug)]
pub struct ConfigArgs {
    pub command: ConfigCommand,
}

#[derive(Debug)]
pub enum ConfigCommand {
    Show,
}

#[derive(Debug)]
pub struct ModelProfilesArgs {
    pub command: ModelProfilesCommand,
}

#[derive(Debug)]
pub enum ModelProfilesCommand {
    List,
    Show { profile: String },
    Create { profile: String, model: String, engine: String, role: ProfileRole },
    Duplicate { source: String, profile: String },
    Delete { profile: String },
    SetModel { profile: String, model: String },
    SetEngine { profile: String, engine: String },
    SetRole { profile: String, role: ProfileRole },
    Assign { profile: String, settings: Vec<String> },
    Unset { profile: String, settings: Vec<String> },
    Load { profile: String, runtime: Option<String>, settings: Vec<String> },
    Compatibility { profile: String, runtime: Option<String> },
}

/// The role of a Model Profile, as it is asked for.
#[derive(Debug, Clone, Copy, PartialEq, Eq, Structural)]
pub enum ProfileRole {
    Primary,
    Auxiliary,
}

impl Default for ProfileRole {
    fn default() -> (result: ProfileRole)
        ensures
            result == ProfileRole::Primary,
    {
        ProfileRole::Primary
    }
}

impl From<ProfileRole> for ModelRole {
    fn from(value: ProfileRole) -> (result: ModelRole) {
        match value {
            ProfileRole::Primary => ModelRole::Primary,
            ProfileRole::Auxiliary => ModelRole::Auxiliary,
        }
    }
}

impl vstd::std_specs::convert::FromSpecImpl<ProfileRole> for ModelRole {
    open spec fn obeys_from_spec() -> bool {
        true
    }

    open spec fn from_spec(value: ProfileRole) -> ModelRole {
        match value {
            ProfileRole::Primary => ModelRole::Primary,
            ProfileRole::Auxiliary => ModelRole::Auxiliary,
        }
    }
}

#[derive(Debug)]
pub struct SettingsArgs {
    pub command: SettingsCommand,
}

#[derive(Debug)]
pub enum SettingsCommand {
    Show { server: bool, runtime: Option<String> },
    Assign(SettingsMutationArgs),
    Unset(SettingsUnsetArgs),
}

/// Settings to set, each as an identifier and a value, of the server or of an engine.
#[derive(Debug)]
pub struct SettingsMutationArgs {
    pub server: bool,
    pub runtime: Option<String>,
    pub settings: Vec<String>,
}

/// Settings to remove, of the server or of an engine.
#[derive(Debug)]
pub struct SettingsUnsetArgs {
    pub server: bool,
    pub runtime: Option<String>,
    pub settings: Vec<String>,
}

} // verus!
