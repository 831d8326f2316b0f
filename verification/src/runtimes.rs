//! Runtime packs: what identifies them, where they come from and how well they fit.
use vstd::prelude::*;
use vstd::string::*;

use crate::duplicate::{duplicate_list, duplicate_option, optional, views, Duplicate};
use crate::paths::{parts, same_path};
use crate::table::{same_texts, Table};
use crate::text::{cat2, cat3, cat4, cat5, same, same_list, same_optional};

verus! {

/// A further file that a package is made of, and what it is there for.
#[derive(Debug)]
pub struct RuntimePackageAsset {
    pub asset_id: Option<String>,
    pub asset_name: String,
    pub role: String,
}

#[verifier::ext_equal]
pub struct AssetView {
    pub asset_id: Option<Seq<char>>,
    pub asset_name: Seq<char>,
    pub role: Seq<char>,
}

impl View for RuntimePackageAsset {
    type V = AssetView;

    open spec fn view(&self) -> AssetView {
        AssetView {
            asset_id: optional(self.asset_id),
            asset_name: self.asset_name@,
            role: self.role@,
        }
    }
}

impl Duplicate for RuntimePackageAsset {
    fn duplicate(&self) -> (result: RuntimePackageAsset) {
        RuntimePackageAsset {
            asset_id: duplicate_option(&self.asset_id),
            asset_name: self.asset_name.clone(),
            role: self.role.clone(),
        }
    }
}

fn same_assets(a: &Vec<RuntimePackageAsset>, b: &Vec<RuntimePackageAsset>) -> (result: bool)
    ensures
        result == (views(a@) == views(b@)),
{
    if a.len() != b.len() {
        assert(views(a@).len() != views(b@).len());
        return false;
    }
    let mut i: usize = 0;
    while i < a.len()
        invariant
            i <= a.len(),
            a.len() == b.len(),
            forall|k: int| 0 <= k < i ==> #[trigger] views(a@)[k] == views(b@)[k],
        decreases a.len() - i,
    {
        if !(same_optional(&a[i].asset_id, &b[i].asset_id) && same(
            a[i].asset_name.as_str(),
            b[i].asset_name.as_str(),
        ) && same(a[i].role.as_str(), b[i].role.as_str())) {
            assert(views(a@)[i as int] != views(b@)[i as int]);
            return false;
        }
        assert(views(a@)[i as int] == views(b@)[i as int]);
        i += 1;
    }
    assert(views(a@) =~= views(b@));
    true
}

/// The package that a runtime was published in.
#[derive(Debug)]
pub struct RuntimePackageIdentity {
    pub provider_id: String,
    pub repository: Option<String>,
    pub release_tag: Option<String>,
    pub asset_id: Option<String>,
    pub asset_name: Option<String>,
    pub additional_assets: Vec<RuntimePackageAsset>,
}

#[verifier::ext_equal]
pub struct PackageView {
    pub provider_id: Seq<char>,
    pub repository: Option<Seq<char>>,
    pub release_tag: Option<Seq<char>>,
    pub asset_id: Option<Seq<char>>,
    pub asset_name: Option<Seq<char>>,
    pub additional_assets: Seq<AssetView>,
}

impl View for RuntimePackageIdentity {
    type V = PackageView;

    open spec fn view(&self) -> PackageView {
        PackageView {
            provider_id: self.provider_id@,
            repository: optional(self.repository),
            release_tag: optional(self.release_tag),
            asset_id: optional(self.asset_id),
            asset_name: optional(self.asset_name),
            additional_assets: views(self.additional_assets@),
        }
    }
}

impl Duplicate for RuntimePackageIdentity {
    fn duplicate(&self) -> (result: RuntimePackageIdentity) {
        RuntimePackageIdentity {
            provider_id: self.provider_id.clone(),
            repository: duplicate_option(&self.repository),
            release_tag: duplicate_option(&self.release_tag),
            asset_id: duplicate_option(&self.asset_id),
            asset_name: duplicate_option(&self.asset_name),
            additional_assets: duplicate_list(&self.additional_assets),
        }
    }
}

impl RuntimePackageIdentity {
    pub fn same_as(&self, other: &RuntimePackageIdentity) -> (result: bool)
        ensures
            result == (self@ == other@),
    {
        same(self.provider_id.as_str(), other.provider_id.as_str()) && same_optional(
            &self.repository,
            &other.repository,
        ) && same_optional(&self.release_tag, &other.release_tag) && same_optional(
            &self.asset_id,
            &other.asset_id,
        ) && same_optional(&self.asset_name, &other.asset_name) && same_assets(
            &self.additional_assets,
            &other.additional_assets,
        )
    }
}

/// What tells one build of a runtime from another.
#[derive(Debug)]
pub struct RuntimeIdentity {
    pub engine_id: String,
    pub package_family: String,
    pub version: String,
    pub upstream_revision: Option<String>,
    pub platform: String,
    pub architecture: String,
    pub accelerator: String,
    pub variant: String,
    pub package: RuntimePackageIdentity,
}

#[verifier::ext_equal]
pub struct RuntimeIdentityView {
    pub engine_id: Seq<char>,
    pub package_family: Seq<char>,
    pub version: Seq<char>,
    pub upstream_revision: Option<Seq<char>>,
    pub platform: Seq<char>,
    pub architecture: Seq<char>,
    pub accelerator: Seq<char>,
    pub variant: Seq<char>,
    pub package: PackageView,
}

impl View for RuntimeIdentity {
    type V = RuntimeIdentityView;

    open spec fn view(&self) -> RuntimeIdentityView {
        RuntimeIdentityView {
            engine_id: self.engine_id@,
            package_family: self.package_family@,
            version: self.version@,
            upstream_revision: optional(self.upstream_revision),
            platform: self.platform@,
            architecture: self.architecture@,
            accelerator: self.accelerator@,
            variant: self.variant@,
            package: self.package@,
        }
    }
}

impl Duplicate for RuntimeIdentity {
    fn duplicate(&self) -> (result: RuntimeIdentity) {
        RuntimeIdentity {
            engine_id: self.engine_id.clone(),
            package_family: self.package_family.clone(),
            version: self.version.clone(),
            upstream_revision: duplicate_option(&self.upstream_revision),
            platform: self.platform.clone(),
            architecture: self.architecture.clone(),
            accelerator: self.accelerator.clone(),
            variant: self.variant.clone(),
            package: self.package.duplicate(),
        }
    }
}

impl RuntimeIdentity {
    pub fn same_as(&self, other: &RuntimeIdentity) -> (result: bool)
        ensures
            result == (self@ == other@),
    {
        same(self.engine_id.as_str(), other.engine_id.as_str()) && same(
            self.package_family.as_str(),
            other.package_family.as_str(),
        ) && same(self.version.as_str(), other.version.as_str()) && same_optional(
            &self.upstream_revision,
            &other.upstream_revision,
        ) && same(self.platform.as_str(), other.platform.as_str()) && same(
            self.architecture.as_str(),
            other.architecture.as_str(),
        ) && same(self.accelerator.as_str(), other.accelerator.as_str()) && same(
            self.variant.as_str(),
            other.variant.as_str(),
        ) && self.package.same_as(&other.package)
    }
}

/// What an engine makes of a variant when it looks for updates: the function that it serves, and, of
/// builds from source, the generation of the recipe.
#[derive(Debug)]
pub struct RuntimeVariantUpdateIdentity {
    pub functional_variant: String,
    pub source_recipe_generation: Option<u64>,
}

#[verifier::ext_equal]
pub struct VariantView {
    pub functional_variant: Seq<char>,
    pub source_recipe_generation: Option<u64>,
}

impl View for RuntimeVariantUpdateIdentity {
    type V = VariantView;

    open spec fn view(&self) -> VariantView {
        VariantView {
            functional_variant: self.functional_variant@,
            source_recipe_generation: self.source_recipe_generation,
        }
    }
}

impl Duplicate for RuntimeVariantUpdateIdentity {
    fn duplicate(&self) -> (result: RuntimeVariantUpdateIdentity) {
        RuntimeVariantUpdateIdentity {
            functional_variant: self.functional_variant.clone(),
            source_recipe_generation: self.source_recipe_generation,
        }
    }
}

impl RuntimeIdentityView {
    /// The variant by itself, without a recipe generation.
    pub open spec fn exact(self) -> VariantView {
        VariantView { functional_variant: self.variant, source_recipe_generation: None }
    }
}

impl RuntimeVariantUpdateIdentity {
    pub fn exact(identity: &RuntimeIdentity) -> (result: RuntimeVariantUpdateIdentity)
        ensures
            result@ == identity@.exact(),
    {
        RuntimeVariantUpdateIdentity {
            functional_variant: identity.variant.clone(),
            source_recipe_generation: None,
        }
    }
}

/// The source that a runtime was built from.
#[derive(Debug)]
pub struct RuntimeSourceSnapshot {
    pub repository: String,
    pub repository_url: String,
    pub source_branch: String,
    pub commit_sha: String,
    pub tree_sha: String,
    pub commit_timestamp_unix: i64,
    pub source_provider: String,
}

#[verifier::ext_equal]
pub struct SourceView {
    pub repository: Seq<char>,
    pub repository_url: Seq<char>,
    pub source_branch: Seq<char>,
    pub commit_sha: Seq<char>,
    pub tree_sha: Seq<char>,
    pub commit_timestamp_unix: i64,
    pub source_provider: Seq<char>,
}

impl View for RuntimeSourceSnapshot {
    type V = SourceView;

    open spec fn view(&self) -> SourceView {
        SourceView {
            repository: self.repository@,
            repository_url: self.repository_url@,
            source_branch: self.source_branch@,
            commit_sha: self.commit_sha@,
            tree_sha: self.tree_sha@,
            commit_timestamp_unix: self.commit_timestamp_unix,
            source_provider: self.source_provider@,
        }
    }
}

impl Duplicate for RuntimeSourceSnapshot {
    fn duplicate(&self) -> (result: RuntimeSourceSnapshot) {
        RuntimeSourceSnapshot {
            repository: self.repository.clone(),
            repository_url: self.repository_url.clone(),
            source_branch: self.source_branch.clone(),
            commit_sha: self.commit_sha.clone(),
            tree_sha: self.tree_sha.clone(),
            commit_timestamp_unix: self.commit_timestamp_unix,
            source_provider: self.source_provider.clone(),
        }
    }
}

impl RuntimeSourceSnapshot {
    pub fn same_as(&self, other: &RuntimeSourceSnapshot) -> (result: bool)
        ensures
            result == (self@ == other@),
    {
        same(self.repository.as_str(), other.repository.as_str()) && same(
            self.repository_url.as_str(),
            other.repository_url.as_str(),
        ) && same(self.source_branch.as_str(), other.source_branch.as_str()) && same(
            self.commit_sha.as_str(),
            other.commit_sha.as_str(),
        ) && same(self.tree_sha.as_str(), other.tree_sha.as_str()) && self.commit_timestamp_unix
            == other.commit_timestamp_unix && same(
            self.source_provider.as_str(),
            other.source_provider.as_str(),
        )
    }
}

#[derive(Debug, Clone, Copy, PartialEq, Eq, Structural)]
pub enum RuntimeSourceBuildSystem {
    Cmake,
    Make,
}

/// The tools that a runtime was built with.
#[derive(Debug)]
pub struct RuntimeSourceBuildToolchain {
    pub cmake_version: String,
    pub ninja_version: String,
    pub make_version: String,
    pub cpp_compiler: String,
    pub nvcc_version: String,
    pub pkg_config_version: String,
    pub system_dependencies: Table<String>,
}

#[verifier::ext_equal]
pub struct ToolchainView {
    pub cmake_version: Seq<char>,
    pub ninja_version: Seq<char>,
    pub make_version: Seq<char>,
    pub cpp_compiler: Seq<char>,
    pub nvcc_version: Seq<char>,
    pub pkg_config_version: Seq<char>,
    pub system_dependencies: Map<Seq<char>, Seq<char>>,
}

impl View for RuntimeSourceBuildToolchain {
    type V = ToolchainView;

    open spec fn view(&self) -> ToolchainView {
        ToolchainView {
            cmake_version: self.cmake_version@,
            ninja_version: self.ninja_version@,
            make_version: self.make_version@,
            cpp_compiler: self.cpp_compiler@,
            nvcc_version: self.nvcc_version@,
            pkg_config_version: self.pkg_config_version@,
            system_dependencies: self.system_dependencies@,
        }
    }
}

impl Duplicate for RuntimeSourceBuildToolchain {
    fn duplicate(&self) -> (result: RuntimeSourceBuildToolchain) {
        RuntimeSourceBuildToolchain {
            cmake_version: self.cmake_version.clone(),
            ninja_version: self.ninja_version.clone(),
            make_version: self.make_version.clone(),
            cpp_compiler: self.cpp_compiler.clone(),
            nvcc_version: self.nvcc_version.clone(),
            pkg_config_version: self.pkg_config_version.clone(),
            system_dependencies: self.system_dependencies.duplicate(),
        }
    }
}

impl RuntimeSourceBuildToolchain {
    pub fn same_as(&self, other: &RuntimeSourceBuildToolchain) -> (result: bool)
        ensures
            result == (self@ == other@),
    {
        same(self.cmake_version.as_str(), other.cmake_version.as_str()) && same(
            self.ninja_version.as_str(),
            other.ninja_version.as_str(),
        ) && same(self.make_version.as_str(), other.make_version.as_str()) && same(
            self.cpp_compiler.as_str(),
            other.cpp_compiler.as_str(),
        ) && same(self.nvcc_version.as_str(), other.nvcc_version.as_str()) && same(
            self.pkg_config_version.as_str(),
            other.pkg_config_version.as_str(),
        ) && same_texts(&self.system_dependencies, &other.system_dependencies)
    }
}

/// How an installed runtime was built from source. A record that names no effective arguments comes
/// from before they were kept.
#[derive(Debug)]
pub struct RuntimeSourceBuildProvenance {
    pub source: RuntimeSourceSnapshot,
    pub recipe_version: String,
    pub build_system: RuntimeSourceBuildSystem,
    pub build_definition_sha256: Option<String>,
    pub cmake_configuration_arguments: Vec<String>,
    pub effective_cmake_configuration_arguments: Option<Vec<String>>,
    pub build_target: String,
    pub toolchain: RuntimeSourceBuildToolchain,
    pub build_platform: String,
    pub build_architecture: String,
    pub accelerator_target: String,
    pub built_at_unix: i64,
    pub entrypoint: String,
    pub entrypoint_sha256: String,
}

#[verifier::ext_equal]
pub struct BuildView {
    pub source: SourceView,
    pub recipe_version: Seq<char>,
    pub build_system: RuntimeSourceBuildSystem,
    pub build_definition_sha256: Option<Seq<char>>,
    pub cmake_configuration_arguments: Seq<Seq<char>>,
    pub effective_cmake_configuration_arguments: Option<Seq<Seq<char>>>,
    pub build_target: Seq<char>,
    pub toolchain: ToolchainView,
    pub build_platform: Seq<char>,
    pub build_architecture: Seq<char>,
    pub accelerator_target: Seq<char>,
    pub built_at_unix: i64,
    pub entrypoint: Seq<char>,
    pub entrypoint_sha256: Seq<char>,
}

impl BuildView {
    /// Whether two records are the same. Paths are compared part by part.
    pub open spec fn equals(self, other: BuildView) -> bool {
        parts(self.entrypoint) == parts(other.entrypoint) && (BuildView {
            entrypoint: other.entrypoint,
            ..self
        }) == other
    }
}

/// The texts of an optional list.
pub open spec fn optional_views(list: Option<Vec<String>>) -> Option<Seq<Seq<char>>> {
    match list {
        Some(list) => Some(views(list@)),
        None => None,
    }
}

pub fn duplicate_optional_list(list: &Option<Vec<String>>) -> (result: Option<Vec<String>>)
    ensures
        optional_views(result) == optional_views(*list),
{
    match list {
        Some(list) => Some(duplicate_list(list)),
        None => None,
    }
}

impl View for RuntimeSourceBuildProvenance {
    type V = BuildView;

    open spec fn view(&self) -> BuildView {
        BuildView {
            source: self.source@,
            recipe_version: self.recipe_version@,
            build_system: self.build_system,
            build_definition_sha256: optional(self.build_definition_sha256),
            cmake_configuration_arguments: views(self.cmake_configuration_arguments@),
            effective_cmake_configuration_arguments: optional_views(
                self.effective_cmake_configuration_arguments,
            ),
            build_target: self.build_target@,
            toolchain: self.toolchain@,
            build_platform: self.build_platform@,
            build_architecture: self.build_architecture@,
            accelerator_target: self.accelerator_target@,
            built_at_unix: self.built_at_unix,
            entrypoint: self.entrypoint@,
            entrypoint_sha256: self.entrypoint_sha256@,
        }
    }
}

impl Duplicate for RuntimeSourceBuildProvenance {
    fn duplicate(&self) -> (result: RuntimeSourceBuildProvenance) {
        RuntimeSourceBuildProvenance {
            source: self.source.duplicate(),
            recipe_version: self.recipe_version.clone(),
            build_system: self.build_system,
            build_definition_sha256: duplicate_option(&self.build_definition_sha256),
            cmake_configuration_arguments: duplicate_list(&self.cmake_configuration_arguments),
            effective_cmake_configuration_arguments: duplicate_optional_list(
                &self.effective_cmake_configuration_arguments,
            ),
            build_target: self.build_target.clone(),
            toolchain: self.toolchain.duplicate(),
            build_platform: self.build_platform.clone(),
            build_architecture: self.build_architecture.clone(),
            accelerator_target: self.accelerator_target.clone(),
            built_at_unix: self.built_at_unix,
            entrypoint: self.entrypoint.clone(),
            entrypoint_sha256: self.entrypoint_sha256.clone(),
        }
    }
}

fn same_optional_list(a: &Option<Vec<String>>, b: &Option<Vec<String>>) -> (result: bool)
    ensures
        result == (optional_views(*a) == optional_views(*b)),
{
    match (a, b) {
        (Some(a), Some(b)) => same_list(a, b),
        (None, None) => true,
        _ => false,
    }
}

impl RuntimeSourceBuildProvenance {
    pub fn same_as(&self, other: &RuntimeSourceBuildProvenance) -> (result: bool)
        ensures
            result == self@.equals(other@),
    {
        self.source.same_as(&other.source) && same(
            self.recipe_version.as_str(),
            other.recipe_version.as_str(),
        ) && self.build_system == other.build_system && same_optional(
            &self.build_definition_sha256,
            &other.build_definition_sha256,
        ) && self.toolchain.same_as(&other.toolchain) && same(
            self.build_platform.as_str(),
            other.build_platform.as_str(),
        ) && same(self.build_architecture.as_str(), other.build_architecture.as_str())
            && self.built_at_unix == other.built_at_unix && same_path(
            self.entrypoint.as_str(),
            other.entrypoint.as_str(),
        ) && same(self.entrypoint_sha256.as_str(), other.entrypoint_sha256.as_str()) && same_list(
            &self.cmake_configuration_arguments,
            &other.cmake_configuration_arguments,
        ) && same_optional_list(
            &self.effective_cmake_configuration_arguments,
            &other.effective_cmake_configuration_arguments,
        ) && same(self.build_target.as_str(), other.build_target.as_str()) && same(
            self.accelerator_target.as_str(),
            other.accelerator_target.as_str(),
        )
    }
}

/// How a runtime is to be built from source.
#[derive(Debug)]
pub struct RuntimeSourceBuildPlan {
    pub source: RuntimeSourceSnapshot,
    pub recipe_version: String,
    pub build_system: RuntimeSourceBuildSystem,
    pub cmake_configuration_arguments: Vec<String>,
    /// The arguments that CMake is really given, where they can be worked out and there are any.
    pub effective_arguments: Result<Option<Vec<String>>, String>,
    pub build_target: String,
    pub accelerator_target: String,
}

#[verifier::ext_equal]
pub struct PlanView {
    pub source: SourceView,
    pub recipe_version: Seq<char>,
    pub build_system: RuntimeSourceBuildSystem,
    pub cmake_configuration_arguments: Seq<Seq<char>>,
    pub effective_arguments: Result<Option<Seq<Seq<char>>>, Seq<char>>,
    pub build_target: Seq<char>,
    pub accelerator_target: Seq<char>,
}

impl View for RuntimeSourceBuildPlan {
    type V = PlanView;

    open spec fn view(&self) -> PlanView {
        PlanView {
            source: self.source@,
            recipe_version: self.recipe_version@,
            build_system: self.build_system,
            cmake_configuration_arguments: views(self.cmake_configuration_arguments@),
            effective_arguments: match self.effective_arguments {
                Ok(arguments) => Ok(optional_views(arguments)),
                Err(error) => Err(error@),
            },
            build_target: self.build_target@,
            accelerator_target: self.accelerator_target@,
        }
    }
}

impl Duplicate for RuntimeSourceBuildPlan {
    fn duplicate(&self) -> (result: RuntimeSourceBuildPlan) {
        RuntimeSourceBuildPlan {
            source: self.source.duplicate(),
            recipe_version: self.recipe_version.clone(),
            build_system: self.build_system,
            cmake_configuration_arguments: duplicate_list(&self.cmake_configuration_arguments),
            effective_arguments: match &self.effective_arguments {
                Ok(arguments) => Ok(duplicate_optional_list(arguments)),
                Err(error) => Err(error.clone()),
            },
            build_target: self.build_target.clone(),
            accelerator_target: self.accelerator_target.clone(),
        }
    }
}

/// How a runtime came here.
#[derive(Debug, Clone, Copy, PartialEq, Eq, Structural)]
pub enum RuntimeAcquisitionMethod {
    OfficialReleaseAsset,
    PreseededOfficialPack,
    SourceBuild,
    ExternalBinary,
}

/// What was seen when a runtime was tried.
#[derive(Debug)]
pub struct RuntimeProbeObservation {
    pub compatible: bool,
    pub observed_engine_id: String,
    pub observed_version: Option<String>,
    pub observed_revision: Option<String>,
    pub detail: String,
    pub observed_at_unix: i64,
}

#[verifier::ext_equal]
pub struct ProbeObservationView {
    pub compatible: bool,
    pub observed_engine_id: Seq<char>,
    pub observed_version: Option<Seq<char>>,
    pub observed_revision: Option<Seq<char>>,
    pub detail: Seq<char>,
    pub observed_at_unix: i64,
}

impl View for RuntimeProbeObservation {
    type V = ProbeObservationView;

    open spec fn view(&self) -> ProbeObservationView {
        ProbeObservationView {
            compatible: self.compatible,
            observed_engine_id: self.observed_engine_id@,
            observed_version: optional(self.observed_version),
            observed_revision: optional(self.observed_revision),
            detail: self.detail@,
            observed_at_unix: self.observed_at_unix,
        }
    }
}

impl Duplicate for RuntimeProbeObservation {
    fn duplicate(&self) -> (result: RuntimeProbeObservation) {
        RuntimeProbeObservation {
            compatible: self.compatible,
            observed_engine_id: self.observed_engine_id.clone(),
            observed_version: duplicate_option(&self.observed_version),
            observed_revision: duplicate_option(&self.observed_revision),
            detail: self.detail.clone(),
            observed_at_unix: self.observed_at_unix,
        }
    }
}

impl RuntimeProbeObservation {
    pub fn same_as(&self, other: &RuntimeProbeObservation) -> (result: bool)
        ensures
            result == (self@ == other@),
    {
        self.compatible == other.compatible && same(
            self.observed_engine_id.as_str(),
            other.observed_engine_id.as_str(),
        ) && same_optional(&self.observed_version, &other.observed_version) && same_optional(
            &self.observed_revision,
            &other.observed_revision,
        ) && same(self.detail.as_str(), other.detail.as_str()) && self.observed_at_unix
            == other.observed_at_unix
    }
}

/// The record of an installed runtime. Formats are held by their names, and what a runtime requires
/// and the native models that it serves as the text that they are stored as.
#[derive(Debug)]
pub struct RuntimeManifest {
    pub schema_version: u64,
    pub runtime_id: String,
    pub identity: RuntimeIdentity,
    pub supported_formats: Vec<String>,
    pub supported_native_identities: Vec<String>,
    pub requirements: String,
    pub acquisition_method: RuntimeAcquisitionMethod,
    pub source_url: Option<String>,
    pub downloaded_archive_sha256: Option<String>,
    pub additional_downloaded_archive_sha256: Vec<String>,
    pub source_build: Option<RuntimeSourceBuildProvenance>,
    pub entrypoint: String,
    pub entrypoint_sha256: String,
    pub installed_at_unix: Option<i64>,
    pub probe: RuntimeProbeObservation,
}

#[verifier::ext_equal]
pub struct ManifestView {
    pub schema_version: u64,
    pub runtime_id: Seq<char>,
    pub identity: RuntimeIdentityView,
    pub supported_formats: Seq<Seq<char>>,
    pub supported_native_identities: Seq<Seq<char>>,
    pub requirements: Seq<char>,
    pub acquisition_method: RuntimeAcquisitionMethod,
    pub source_url: Option<Seq<char>>,
    pub downloaded_archive_sha256: Option<Seq<char>>,
    pub additional_downloaded_archive_sha256: Seq<Seq<char>>,
    pub source_build: Option<BuildView>,
    pub entrypoint: Seq<char>,
    pub entrypoint_sha256: Seq<char>,
    pub installed_at_unix: Option<i64>,
    pub probe: ProbeObservationView,
}

impl View for RuntimeManifest {
    type V = ManifestView;

    open spec fn view(&self) -> ManifestView {
        ManifestView {
            schema_version: self.schema_version,
            runtime_id: self.runtime_id@,
            identity: self.identity@,
            supported_formats: views(self.supported_formats@),
            supported_native_identities: views(self.supported_native_identities@),
            requirements: self.requirements@,
            acquisition_method: self.acquisition_method,
            source_url: optional(self.source_url),
            downloaded_archive_sha256: optional(self.downloaded_archive_sha256),
            additional_downloaded_archive_sha256: views(self.additional_downloaded_archive_sha256@),
            source_build: optional(self.source_build),
            entrypoint: self.entrypoint@,
            entrypoint_sha256: self.entrypoint_sha256@,
            installed_at_unix: self.installed_at_unix,
            probe: self.probe@,
        }
    }
}

impl Duplicate for RuntimeManifest {
    fn duplicate(&self) -> (result: RuntimeManifest) {
        RuntimeManifest {
            schema_version: self.schema_version,
            runtime_id: self.runtime_id.clone(),
            identity: self.identity.duplicate(),
            supported_formats: duplicate_list(&self.supported_formats),
            supported_native_identities: duplicate_list(&self.supported_native_identities),
            requirements: self.requirements.clone(),
            acquisition_method: self.acquisition_method,
            source_url: duplicate_option(&self.source_url),
            downloaded_archive_sha256: duplicate_option(&self.downloaded_archive_sha256),
            additional_downloaded_archive_sha256: duplicate_list(
                &self.additional_downloaded_archive_sha256,
            ),
            source_build: duplicate_option(&self.source_build),
            entrypoint: self.entrypoint.clone(),
            entrypoint_sha256: self.entrypoint_sha256.clone(),
            installed_at_unix: self.installed_at_unix,
            probe: self.probe.duplicate(),
        }
    }
}

impl ManifestView {
    /// Whether two records are the same. Paths are compared part by part.
    pub open spec fn equals(self, other: ManifestView) -> bool {
        &&& parts(self.entrypoint) == parts(other.entrypoint)
        &&& match (self.source_build, other.source_build) {
            (Some(build), Some(another)) => build.equals(another),
            (None, None) => true,
            _ => false,
        }
        &&& (ManifestView {
            entrypoint: other.entrypoint,
            source_build: other.source_build,
            ..self
        }) == other
    }
}

impl RuntimeManifest {
    pub fn same_as(&self, other: &RuntimeManifest) -> (result: bool)
        ensures
            result == self@.equals(other@),
    {
        let same_build = match (&self.source_build, &other.source_build) {
            (Some(a), Some(b)) => a.same_as(b),
            (None, None) => true,
            _ => false,
        };
        let same_time = match (self.installed_at_unix, other.installed_at_unix) {
            (Some(a), Some(b)) => a == b,
            (None, None) => true,
            _ => false,
        };
        self.schema_version == other.schema_version && same(
            self.runtime_id.as_str(),
            other.runtime_id.as_str(),
        ) && self.identity.same_as(&other.identity) && same_list(
            &self.supported_formats,
            &other.supported_formats,
        ) && same_list(&self.supported_native_identities, &other.supported_native_identities)
            && same(self.requirements.as_str(), other.requirements.as_str())
            && self.acquisition_method == other.acquisition_method && same_optional(
            &self.source_url,
            &other.source_url,
        ) && same_optional(&self.downloaded_archive_sha256, &other.downloaded_archive_sha256)
            && same_list(
            &self.additional_downloaded_archive_sha256,
            &other.additional_downloaded_archive_sha256,
        ) && same_build && same_path(self.entrypoint.as_str(), other.entrypoint.as_str()) && same(
            self.entrypoint_sha256.as_str(),
            other.entrypoint_sha256.as_str(),
        ) && same_time && self.probe.same_as(&other.probe)
    }
}

/// A runtime that is installed, where it is, and what its engine makes of its variant, if the engine
/// is registered.
#[derive(Debug)]
pub struct InstalledRuntime {
    pub manifest: RuntimeManifest,
    pub installation_root: String,
    pub engine_variant: Option<RuntimeVariantUpdateIdentity>,
}

#[verifier::ext_equal]
pub struct RuntimeView {
    pub manifest: ManifestView,
    pub installation_root: Seq<char>,
    pub engine_variant: Option<VariantView>,
}

impl View for InstalledRuntime {
    type V = RuntimeView;

    open spec fn view(&self) -> RuntimeView {
        RuntimeView {
            manifest: self.manifest@,
            installation_root: self.installation_root@,
            engine_variant: optional(self.engine_variant),
        }
    }
}

impl Duplicate for InstalledRuntime {
    fn duplicate(&self) -> (result: InstalledRuntime) {
        InstalledRuntime {
            manifest: self.manifest.duplicate(),
            installation_root: self.installation_root.clone(),
            engine_variant: duplicate_option(&self.engine_variant),
        }
    }
}

impl RuntimeView {
    /// The variant as updates see it: what the engine says where it counts and is known, else the
    /// variant by itself.
    pub open spec fn variant(self, ask_engine: bool) -> VariantView {
        match self.engine_variant {
            Some(variant) if ask_engine => variant,
            _ => self.manifest.identity.exact(),
        }
    }
}

impl InstalledRuntime {
    pub fn update_variant(&self, ask_engine: bool) -> (result: RuntimeVariantUpdateIdentity)
        ensures
            result@ == self@.variant(ask_engine),
    {
        match &self.engine_variant {
            Some(variant) if ask_engine => variant.duplicate(),
            _ => RuntimeVariantUpdateIdentity::exact(&self.manifest.identity),
        }
    }
}

#[derive(Debug, Clone, Copy, PartialEq, Eq, Structural)]
pub enum RuntimeReleaseChannel {
    Stable,
    Latest,
}

/// How a published runtime is acquired. Of a download, its digest counts, where it has one.
#[derive(Debug)]
pub enum RuntimeAcquisitionPlan {
    ReleaseAsset { digest: Option<String>, additional_digests: Vec<Option<String>> },
    SourceBuild(RuntimeSourceBuildPlan),
}

#[verifier::ext_equal]
pub enum AcquisitionView {
    ReleaseAsset { digest: Option<Seq<char>>, additional_digests: Seq<Option<Seq<char>>> },
    SourceBuild(PlanView),
}

/// The texts of a list of optional texts.
pub open spec fn option_list(list: Seq<Option<String>>) -> Seq<Option<Seq<char>>> {
    list.map_values(|text: Option<String>| optional(text))
}

impl View for RuntimeAcquisitionPlan {
    type V = AcquisitionView;

    open spec fn view(&self) -> AcquisitionView {
        match self {
            RuntimeAcquisitionPlan::ReleaseAsset { digest, additional_digests } => {
                AcquisitionView::ReleaseAsset {
                    digest: optional(*digest),
                    additional_digests: option_list(additional_digests@),
                }
            },
            RuntimeAcquisitionPlan::SourceBuild(plan) => AcquisitionView::SourceBuild(plan@),
        }
    }
}

/// A runtime that a provider publishes.
#[derive(Debug)]
pub struct AvailableRuntime {
    pub runtime_id: String,
    pub identity: RuntimeIdentity,
    pub supported_formats: Vec<String>,
    pub source_url: String,
    pub published_at_unix: Option<i64>,
    pub channels: Vec<RuntimeReleaseChannel>,
    pub prerelease: bool,
    pub acquisition: RuntimeAcquisitionPlan,
    pub requirements: String,
    pub engine_variant: Option<RuntimeVariantUpdateIdentity>,
}

#[verifier::ext_equal]
pub struct AvailableView {
    pub runtime_id: Seq<char>,
    pub identity: RuntimeIdentityView,
    pub supported_formats: Seq<Seq<char>>,
    pub source_url: Seq<char>,
    pub published_at_unix: Option<i64>,
    pub channels: Seq<RuntimeReleaseChannel>,
    pub prerelease: bool,
    pub acquisition: AcquisitionView,
    pub requirements: Seq<char>,
    pub engine_variant: Option<VariantView>,
}

impl View for AvailableRuntime {
    type V = AvailableView;

    open spec fn view(&self) -> AvailableView {
        AvailableView {
            runtime_id: self.runtime_id@,
            identity: self.identity@,
            supported_formats: views(self.supported_formats@),
            source_url: self.source_url@,
            published_at_unix: self.published_at_unix,
            channels: self.channels@,
            prerelease: self.prerelease,
            acquisition: self.acquisition@,
            requirements: self.requirements@,
            engine_variant: optional(self.engine_variant),
        }
    }
}

impl AvailableView {
    pub open spec fn variant(self, ask_engine: bool) -> VariantView {
        match self.engine_variant {
            Some(variant) if ask_engine => variant,
            _ => self.identity.exact(),
        }
    }

    /// The source that the runtime is built from, if it is.
    pub open spec fn source(self) -> Option<SourceView> {
        match self.acquisition {
            AcquisitionView::SourceBuild(plan) => Some(plan.source),
            _ => None,
        }
    }
}

impl AvailableRuntime {
    pub fn update_variant(&self, ask_engine: bool) -> (result: RuntimeVariantUpdateIdentity)
        ensures
            result@ == self@.variant(ask_engine),
    {
        match &self.engine_variant {
            Some(variant) if ask_engine => variant.duplicate(),
            _ => RuntimeVariantUpdateIdentity::exact(&self.identity),
        }
    }
}

/// How well a runtime fits.
#[derive(Debug)]
pub enum RuntimeCompatibility {
    Recommended,
    Compatible,
    NeedsAttention(String),
    Incompatible(String),
}

#[verifier::ext_equal]
pub enum CompatibilityView {
    Recommended,
    Compatible,
    NeedsAttention(Seq<char>),
    Incompatible(Seq<char>),
}

impl View for RuntimeCompatibility {
    type V = CompatibilityView;

    open spec fn view(&self) -> CompatibilityView {
        match self {
            RuntimeCompatibility::Recommended => CompatibilityView::Recommended,
            RuntimeCompatibility::Compatible => CompatibilityView::Compatible,
            RuntimeCompatibility::NeedsAttention(reason) => CompatibilityView::NeedsAttention(
                reason@,
            ),
            RuntimeCompatibility::Incompatible(reason) => CompatibilityView::Incompatible(reason@),
        }
    }
}

impl Duplicate for RuntimeCompatibility {
    fn duplicate(&self) -> (result: RuntimeCompatibility) {
        match self {
            RuntimeCompatibility::Recommended => RuntimeCompatibility::Recommended,
            RuntimeCompatibility::Compatible => RuntimeCompatibility::Compatible,
            RuntimeCompatibility::NeedsAttention(reason) => RuntimeCompatibility::NeedsAttention(
                reason.clone(),
            ),
            RuntimeCompatibility::Incompatible(reason) => RuntimeCompatibility::Incompatible(
                reason.clone(),
            ),
        }
    }
}

impl CompatibilityView {
    pub open spec fn usable(self) -> bool {
        !(self is Incompatible)
    }

    /// The better it fits, the lower the rank.
    pub open spec fn rank(self) -> int {
        match self {
            CompatibilityView::Recommended => 0,
            CompatibilityView::Compatible => 1,
            CompatibilityView::NeedsAttention(_) => 2,
            CompatibilityView::Incompatible(_) => 3,
        }
    }

    /// Two judgements together: the worse one, the first where both are as bad.
    pub open spec fn combined(self, other: CompatibilityView) -> CompatibilityView {
        if other.rank() > self.rank() {
            other
        } else {
            self
        }
    }
}

impl RuntimeCompatibility {
    pub fn is_usable(&self) -> (result: bool)
        ensures
            result == self@.usable(),
    {
        match self {
            RuntimeCompatibility::Incompatible(_) => false,
            _ => true,
        }
    }

    pub fn preference_rank(&self) -> (result: u64)
        ensures
            result == self@.rank(),
    {
        match self {
            RuntimeCompatibility::Recommended => 0,
            RuntimeCompatibility::Compatible => 1,
            RuntimeCompatibility::NeedsAttention(_) => 2,
            RuntimeCompatibility::Incompatible(_) => 3,
        }
    }
}

/// What the host and the model say of a runtime, together.
pub fn combine_compatibility(host: RuntimeCompatibility, model: RuntimeCompatibility) -> (result:
    RuntimeCompatibility)
    ensures
        result@ == host@.combined(model@),
{
    match (host, model) {
        (RuntimeCompatibility::Incompatible(reason), _) => RuntimeCompatibility::Incompatible(
            reason,
        ),
        (_, RuntimeCompatibility::Incompatible(reason)) => RuntimeCompatibility::Incompatible(
            reason,
        ),
        (RuntimeCompatibility::NeedsAttention(reason), _) => RuntimeCompatibility::NeedsAttention(
            reason,
        ),
        (_, RuntimeCompatibility::NeedsAttention(reason)) => RuntimeCompatibility::NeedsAttention(
            reason,
        ),
        (RuntimeCompatibility::Recommended, RuntimeCompatibility::Recommended) => {
            RuntimeCompatibility::Recommended
        },
        _ => RuntimeCompatibility::Compatible,
    }
}

/// Together two judgements are never better than either, they are usable exactly if both are, and
/// how they are grouped does not matter.
pub proof fn law_combined_compatibility(
    a: CompatibilityView,
    b: CompatibilityView,
    c: CompatibilityView,
)
    ensures
        a.combined(b).rank() >= a.rank(),
        a.combined(b).rank() >= b.rank(),
        a.combined(b).usable() == (a.usable() && b.usable()),
        a.combined(a) == a,
        a.combined(b).combined(c) == a.combined(b.combined(c)),
{
}

/// The rank of how a runtime came here: managed ones first.
pub open spec fn acquisition_order(method: RuntimeAcquisitionMethod) -> int {
    if method == RuntimeAcquisitionMethod::ExternalBinary {
        1
    } else {
        0
    }
}

pub fn acquisition_rank(runtime: &InstalledRuntime) -> (result: u64)
    ensures
        result == acquisition_order(runtime.manifest.acquisition_method),
{
    match runtime.manifest.acquisition_method {
        RuntimeAcquisitionMethod::ExternalBinary => 1,
        _ => 0,
    }
}

/// Why an operation on runtime packs failed.
#[derive(Debug)]
pub enum RuntimePackError {
    /// An error of the store, the catalog, the installer or the settings, by its message.
    Other(String),
    NotInstalled(String),
    Incompatible { runtime_id: String, reason: String },
    Selected { runtime_id: String, selection: String },
    Active(String),
    Selection(String),
    Adapter(String),
}

#[verifier::ext_equal]
pub enum PackErrorView {
    Other(Seq<char>),
    NotInstalled(Seq<char>),
    Incompatible { runtime_id: Seq<char>, reason: Seq<char> },
    Selected { runtime_id: Seq<char>, selection: Seq<char> },
    Active(Seq<char>),
    Selection(Seq<char>),
    Adapter(Seq<char>),
}

impl View for RuntimePackError {
    type V = PackErrorView;

    open spec fn view(&self) -> PackErrorView {
        match self {
            RuntimePackError::Other(message) => PackErrorView::Other(message@),
            RuntimePackError::NotInstalled(id) => PackErrorView::NotInstalled(id@),
            RuntimePackError::Incompatible { runtime_id, reason } => PackErrorView::Incompatible {
                runtime_id: runtime_id@,
                reason: reason@,
            },
            RuntimePackError::Selected { runtime_id, selection } => PackErrorView::Selected {
                runtime_id: runtime_id@,
                selection: selection@,
            },
            RuntimePackError::Active(id) => PackErrorView::Active(id@),
            RuntimePackError::Selection(detail) => PackErrorView::Selection(detail@),
            RuntimePackError::Adapter(detail) => PackErrorView::Adapter(detail@),
        }
    }
}

impl PackErrorView {
    pub open spec fn text(self) -> Seq<char> {
        match self {
            PackErrorView::Other(message) => message,
            PackErrorView::NotInstalled(id) => "runtime `"@ + id + "` is not installed"@,
            PackErrorView::Incompatible { runtime_id, reason } => "runtime `"@ + runtime_id
                + "` is incompatible: "@ + reason,
            PackErrorView::Selected { runtime_id, selection } => "runtime `"@ + runtime_id
                + "` is selected for "@ + selection + "; clear or remap that selection first"@,
            PackErrorView::Active(id) => "runtime `"@ + id
                + "` is currently running and cannot be removed"@,
            PackErrorView::Selection(detail) => "runtime selection failed: "@ + detail,
            PackErrorView::Adapter(detail) => "engine adapter failed: "@ + detail,
        }
    }
}

impl RuntimePackError {
    pub fn message(&self) -> (result: String)
        ensures
            result@ == self@.text(),
    {
        match self {
            RuntimePackError::Other(message) => message.clone(),
            RuntimePackError::NotInstalled(id) => cat3(
                "runtime `",
                id.as_str(),
                "` is not installed",
            ),
            RuntimePackError::Incompatible { runtime_id, reason } => cat4(
                "runtime `",
                runtime_id.as_str(),
                "` is incompatible: ",
                reason.as_str(),
            ),
            RuntimePackError::Selected { runtime_id, selection } => cat5(
                "runtime `",
                runtime_id.as_str(),
                "` is selected for ",
                selection.as_str(),
                "; clear or remap that selection first",
            ),
            RuntimePackError::Active(id) => cat3(
                "runtime `",
                id.as_str(),
                "` is currently running and cannot be removed",
            ),
            RuntimePackError::Selection(detail) => cat2(
                "runtime selection failed: ",
                detail.as_str(),
            ),
            RuntimePackError::Adapter(detail) => cat2("engine adapter failed: ", detail.as_str()),
        }
    }
}

/// Of two judgements the worse one counts, and the reason that is given is one that was given: a runtime
/// is incompatible where one of them says so, recommended only where both do.
pub proof fn law_worse_judgement_counts(a: CompatibilityView, b: CompatibilityView)
    ensures
        a.combined(b) == a || a.combined(b) == b,
        a.combined(b) is Incompatible <==> a is Incompatible || b is Incompatible,
        a.combined(b) is Recommended <==> a is Recommended && b is Recommended,
        a is NeedsAttention && !(b is Incompatible) ==> a.combined(b) == a,
        b is NeedsAttention && (a is Compatible || a is Recommended) ==> a.combined(b) == b,
        a is Incompatible ==> a.combined(b) == a,
        a.usable() <==> !(a is Incompatible),
{
}

/// What the engine says of a variant counts where it is asked for and known; else the variant is what it
/// is called, by no known recipe.
pub proof fn law_engines_know_their_variants(runtime: RuntimeView, known: VariantView)
    ensures
        runtime.engine_variant == Some(known) ==> runtime.variant(true) == known,
        runtime.engine_variant is None ==> runtime.variant(true) == runtime.variant(false),
        runtime.variant(false).functional_variant == runtime.manifest.identity.variant,
        runtime.variant(false).source_recipe_generation is None,
{
}

} // verus!
