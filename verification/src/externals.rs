//! Engine binaries that are installed outside the store.
use vstd::prelude::*;
use vstd::string::*;

use crate::duplicate::{duplicate_option, optional, views};
use crate::engines::{EngineProbe, InstallationState};
use crate::runtimes::{
    InstalledRuntime, ManifestView, PackageView, PackErrorView, ProbeObservationView,
    RuntimeAcquisitionMethod, RuntimeIdentity, RuntimeIdentityView, RuntimeManifest,
    RuntimePackError, RuntimePackageIdentity, RuntimeProbeObservation, RuntimeView,
};
use crate::text::cat3;

verus! {

/// What was seen of an engine binary.
#[derive(Debug)]
pub struct ExternalBinary {
    pub binary_path: String,
    pub file_name: Option<String>,
    pub directory: String,
    pub binary_sha256: Option<String>,
    pub version: Option<String>,
    pub revision: Option<String>,
    pub platform: String,
    pub architecture: String,
    pub runtime_variant: Option<String>,
    pub source_repository: Option<String>,
    pub observed_at_unix: i64,
}

/// What came of trying the binary of an engine.
#[derive(Debug)]
pub enum ExternalProbe {
    Failed(String),
    NotInstalled,
    Invalid { reason: String },
    Installed { healthy: bool },
}

/// What probing an engine says of its binary, with the detail of the probe.
pub fn external_probe(probe: Result<EngineProbe, String>) -> (result: (ExternalProbe, String))
    ensures
        match probe {
            Err(error) => result.0 == ExternalProbe::Failed(error) && result.1@ == ""@,
            Ok(probe) => result.1 == probe.detail && result.0 == match probe.installation {
                InstallationState::NotInstalled => ExternalProbe::NotInstalled,
                InstallationState::Invalid { reason } => ExternalProbe::Invalid { reason },
                InstallationState::Installed { .. } => ExternalProbe::Installed {
                    healthy: probe.healthy,
                },
            },
        },
{
    match probe {
        Err(error) => (ExternalProbe::Failed(error), "".to_owned()),
        Ok(probe) => {
            let look = match probe.installation {
                InstallationState::NotInstalled => ExternalProbe::NotInstalled,
                InstallationState::Invalid { reason } => ExternalProbe::Invalid { reason },
                InstallationState::Installed { .. } => ExternalProbe::Installed {
                    healthy: probe.healthy,
                },
            };
            (look, probe.detail)
        },
    }
}

/// What to do with the binary of an engine: take it as a runtime, warn, or neither.
#[derive(Debug)]
pub enum ExternalStep {
    Take,
    Warn(String),
    Skip,
}

pub fn external_step(engine_id: &str, probe: &ExternalProbe) -> (result: ExternalStep)
    ensures
        match *probe {
            ExternalProbe::Failed(error) => result matches ExternalStep::Warn(text) && text@
                == engine_id@ + " external runtime probe failed: "@ + error@,
            ExternalProbe::Invalid { reason } => result matches ExternalStep::Warn(text) && text@
                == engine_id@ + " external runtime is invalid: "@ + reason@,
            ExternalProbe::NotInstalled => result is Skip,
            ExternalProbe::Installed { healthy } => if healthy {
                result is Take
            } else {
                result is Skip
            },
        },
{
    match probe {
        ExternalProbe::Failed(error) => ExternalStep::Warn(
            cat3(engine_id, " external runtime probe failed: ", error.as_str()),
        ),
        ExternalProbe::Invalid { reason } => ExternalStep::Warn(
            cat3(engine_id, " external runtime is invalid: ", reason.as_str()),
        ),
        ExternalProbe::NotInstalled => ExternalStep::Skip,
        ExternalProbe::Installed { healthy } => if *healthy {
            ExternalStep::Take
        } else {
            ExternalStep::Skip
        },
    }
}

/// A text, or another where there is none.
pub open spec fn text_or(text: Option<String>, other: Seq<char>) -> Seq<char> {
    match text {
        Some(text) => text@,
        None => other,
    }
}

fn or_text(text: &Option<String>, other: &str) -> (result: String)
    ensures
        result@ == text_or(*text, other@),
{
    match text {
        Some(text) => text.clone(),
        None => other.to_owned(),
    }
}

/// How a binary is identified.
pub open spec fn external_view(engine_id: Seq<char>, binary: ExternalBinary) -> RuntimeIdentityView {
    RuntimeIdentityView {
        engine_id,
        package_family: engine_id,
        version: text_or(binary.version, "unknown"@),
        upstream_revision: optional(binary.revision),
        platform: binary.platform@,
        architecture: binary.architecture@,
        accelerator: "external"@,
        variant: text_or(binary.runtime_variant, "external-binary"@),
        package: PackageView {
            provider_id: "external-binary"@,
            repository: optional(binary.source_repository),
            release_tag: None,
            asset_id: Some(binary.binary_path@),
            asset_name: optional(binary.file_name),
            additional_assets: Seq::empty(),
        },
    }
}

pub fn external_identity(engine_id: &str, binary: &ExternalBinary) -> (result: Result<
    RuntimeIdentity,
    RuntimePackError,
>)
    ensures
        match result {
            Ok(identity) => binary.binary_sha256 is Some && identity@ == external_view(
                engine_id@,
                *binary,
            ),
            Err(error) => binary.binary_sha256 is None && error@ == PackErrorView::Selection(
                "external "@ + engine_id@ + " binary has no observed SHA-256"@,
            ),
        },
{
    if binary.binary_sha256.is_none() {
        return Err(
            RuntimePackError::Selection(
                cat3("external ", engine_id, " binary has no observed SHA-256"),
            ),
        );
    }
    let package = RuntimePackageIdentity {
        provider_id: "external-binary".to_owned(),
        repository: duplicate_option(&binary.source_repository),
        release_tag: None,
        asset_id: Some(binary.binary_path.clone()),
        asset_name: duplicate_option(&binary.file_name),
        additional_assets: Vec::new(),
    };
    proof {
        assert(package@.additional_assets =~= Seq::empty());
    }
    Ok(
        RuntimeIdentity {
            engine_id: engine_id.to_owned(),
            package_family: engine_id.to_owned(),
            version: or_text(&binary.version, "unknown"),
            upstream_revision: duplicate_option(&binary.revision),
            platform: binary.platform.clone(),
            architecture: binary.architecture.clone(),
            accelerator: "external".to_owned(),
            variant: or_text(&binary.runtime_variant, "external-binary"),
            package,
        },
    )
}

/// The record of a binary as a runtime.
pub open spec fn external_manifest(
    engine_id: Seq<char>,
    binary: ExternalBinary,
    identity: RuntimeIdentityView,
    runtime_id: Seq<char>,
    supported_formats: Seq<Seq<char>>,
    detail: Seq<char>,
    schema_version: u64,
    requirements: Seq<char>,
) -> ManifestView {
    ManifestView {
        schema_version,
        runtime_id,
        identity,
        supported_formats,
        supported_native_identities: Seq::empty(),
        requirements,
        acquisition_method: RuntimeAcquisitionMethod::ExternalBinary,
        source_url: None,
        downloaded_archive_sha256: None,
        additional_downloaded_archive_sha256: Seq::empty(),
        source_build: None,
        entrypoint: binary.binary_path@,
        entrypoint_sha256: text_or(binary.binary_sha256, ""@),
        installed_at_unix: None,
        probe: ProbeObservationView {
            compatible: true,
            observed_engine_id: engine_id,
            observed_version: optional(binary.version),
            observed_revision: optional(binary.revision),
            detail,
            observed_at_unix: binary.observed_at_unix,
        },
    }
}

/// A binary as a runtime, under the identifier of its identity.
pub fn external_runtime(
    engine_id: &str,
    binary: &ExternalBinary,
    identity: RuntimeIdentity,
    runtime_id: &str,
    supported_formats: Vec<String>,
    detail: &str,
    schema_version: u64,
    requirements: &str,
) -> (result: InstalledRuntime)
    requires
        binary.binary_sha256 is Some,
    ensures
        result@ == (RuntimeView {
            manifest: external_manifest(
                engine_id@,
                *binary,
                identity@,
                runtime_id@,
                views(supported_formats@),
                detail@,
                schema_version,
                requirements@,
            ),
            installation_root: binary.directory@,
            engine_variant: None,
        }),
{
    let manifest = RuntimeManifest {
        schema_version,
        runtime_id: runtime_id.to_owned(),
        identity,
        supported_formats,
        supported_native_identities: Vec::new(),
        requirements: requirements.to_owned(),
        acquisition_method: RuntimeAcquisitionMethod::ExternalBinary,
        source_url: None,
        downloaded_archive_sha256: None,
        additional_downloaded_archive_sha256: Vec::new(),
        source_build: None,
        entrypoint: binary.binary_path.clone(),
        entrypoint_sha256: or_text(&binary.binary_sha256, ""),
        installed_at_unix: None,
        probe: RuntimeProbeObservation {
            compatible: true,
            observed_engine_id: engine_id.to_owned(),
            observed_version: duplicate_option(&binary.version),
            observed_revision: duplicate_option(&binary.revision),
            detail: detail.to_owned(),
            observed_at_unix: binary.observed_at_unix,
        },
    };
    proof {
        assert(manifest@.supported_native_identities =~= Seq::empty());
        assert(manifest@.additional_downloaded_archive_sha256 =~= Seq::empty());
    }
    InstalledRuntime {
        manifest,
        installation_root: binary.directory.clone(),
        engine_variant: None,
    }
}

/// A binary of someone else's is known by its engine, its version, its variant and its path, each "unknown"
/// or of an outside binary where it is not told; nothing of it was downloaded or built here.
pub proof fn law_outside_binaries_are_told_apart(
    engine_id: Seq<char>,
    binary: ExternalBinary,
    runtime_id: Seq<char>,
    formats: Seq<Seq<char>>,
    detail: Seq<char>,
    schema_version: u64,
    requirements: Seq<char>,
)
    ensures
        ({
            let identity = external_view(engine_id, binary);
            let manifest = external_manifest(
                engine_id,
                binary,
                identity,
                runtime_id,
                formats,
                detail,
                schema_version,
                requirements,
            );
            &&& identity.engine_id == engine_id
            &&& binary.version matches Some(version) ==> identity.version == version@
            &&& binary.version is None ==> identity.version == "unknown"@
            &&& binary.runtime_variant matches Some(variant) ==> identity.variant == variant@
            &&& binary.runtime_variant is None ==> identity.variant == "external-binary"@
            &&& identity.accelerator == "external"@
            &&& identity.platform == binary.platform@ && identity.architecture
                == binary.architecture@
            &&& identity.package.provider_id == "external-binary"@
            &&& identity.package.asset_id == Some(binary.binary_path@)
            &&& manifest.acquisition_method == RuntimeAcquisitionMethod::ExternalBinary
            &&& manifest.runtime_id == runtime_id && manifest.identity == identity
            &&& manifest.supported_formats == formats
            &&& manifest.entrypoint == binary.binary_path@
            &&& binary.binary_sha256 matches Some(digest) ==> manifest.entrypoint_sha256 == digest@
            &&& manifest.source_url is None && manifest.source_build is None
            &&& manifest.downloaded_archive_sha256 is None && manifest.installed_at_unix is None
            &&& manifest.probe.compatible && manifest.probe.observed_engine_id == engine_id
            &&& manifest.probe.detail == detail
        }),
{
}

} // verus!
