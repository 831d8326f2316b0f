use norted::duplicate::Duplicate;
use norted::order::Order;
use norted::runtimes::{
    acquisition_rank, combine_compatibility, AvailableRuntime, InstalledRuntime,
    RuntimeAcquisitionMethod, RuntimeAcquisitionPlan, RuntimeCompatibility, RuntimeIdentity,
    RuntimeManifest, RuntimePackError, RuntimePackageIdentity, RuntimeProbeObservation,
    RuntimeReleaseChannel, RuntimeSourceBuildPlan, RuntimeSourceBuildProvenance,
    RuntimeSourceBuildSystem, RuntimeSourceBuildToolchain, RuntimeSourceSnapshot,
    RuntimeVariantUpdateIdentity,
};
use norted::store::{admit_activation, verify_exact_manifest, RuntimeStoreError};
use norted::table::Table;
use norted::updates::{
    compare_installed_recency, compare_installed_recency_inner,
    compare_installed_recency_with_registry, compare_source_update_candidates, compare_times,
    ensure_catalog_provenance_matches, is_proven_superseding_installed_runtime,
    q27_semantic_release_identity, same_update_line, semantic_release_update_state,
    source_build_provenance_matches_plan, source_history_update_state, source_recipe_ordering,
    update_channel_matches, GitHubCompare, GitHubComparisonStatus, RuntimeUpdatePreference,
    RuntimeUpdateState,
};
use norted::versions::{compare_versions, release_parts, version_parts};

fn runtime_id_of(identity: &RuntimeIdentity) -> String {
    format!(
        "{}-{}-{}-{}-{}",
        identity.engine_id,
        identity.package_family,
        identity.version,
        identity.variant,
        identity.package.provider_id
    )
}

/// The engine of the fixtures knows three generations of its recipe.
fn fixture_variant(identity: &RuntimeIdentity) -> RuntimeVariantUpdateIdentity {
    let generation: u64 = match identity.variant.as_str() {
        "recipe-v1" => 1,
        "recipe-v2" => 2,
        "recipe-v3" => 3,
        _ => return RuntimeVariantUpdateIdentity::exact(identity),
    };
    RuntimeVariantUpdateIdentity {
        functional_variant: "fixture-functional-variant".to_owned(),
        source_recipe_generation: Some(generation),
    }
}

fn installed_fixture(version: &str, source: Option<(i64, &str)>) -> InstalledRuntime {
    let identity = RuntimeIdentity {
        engine_id: "fixture-engine".to_owned(),
        package_family: "fixture-family".to_owned(),
        version: version.to_owned(),
        upstream_revision: source.map(|(_, commit)| commit.to_owned()),
        platform: "linux".to_owned(),
        architecture: "x86_64".to_owned(),
        accelerator: "cuda-sm120".to_owned(),
        variant: "default".to_owned(),
        package: RuntimePackageIdentity {
            provider_id: "fixture-provider".to_owned(),
            repository: Some("owner/repository".to_owned()),
            release_tag: source.is_none().then_some(version.to_owned()),
            asset_id: source.is_none().then_some("1".to_owned()),
            asset_name: source.is_none().then_some("runtime.tar.gz".to_owned()),
            additional_assets: Vec::new(),
        },
    };
    let source_build = source.map(|(commit_timestamp_unix, commit_sha)| RuntimeSourceBuildProvenance {
        source: RuntimeSourceSnapshot {
            repository: "owner/repository".to_owned(),
            repository_url: "https://github.com/owner/repository.git".to_owned(),
            source_branch: "main".to_owned(),
            commit_sha: commit_sha.to_owned(),
            tree_sha: "b".repeat(40),
            commit_timestamp_unix,
            source_provider: "github".to_owned(),
        },
        recipe_version: "fixture-v1".to_owned(),
        build_system: RuntimeSourceBuildSystem::Cmake,
        build_definition_sha256: None,
        cmake_configuration_arguments: Vec::new(),
        effective_cmake_configuration_arguments: None,
        build_target: "fixture".to_owned(),
        toolchain: RuntimeSourceBuildToolchain {
            cmake_version: "4.0".to_owned(),
            ninja_version: "1.12".to_owned(),
            make_version: "not required".to_owned(),
            cpp_compiler: "fixture-c++".to_owned(),
            nvcc_version: "13.0".to_owned(),
            pkg_config_version: "2.0".to_owned(),
            system_dependencies: Table::new(),
        },
        build_platform: "linux".to_owned(),
        build_architecture: "x86_64".to_owned(),
        accelerator_target: "sm_120".to_owned(),
        built_at_unix: commit_timestamp_unix,
        entrypoint: "server".to_owned(),
        entrypoint_sha256: "c".repeat(64),
    });
    InstalledRuntime {
        manifest: RuntimeManifest {
            schema_version: 1,
            runtime_id: runtime_id_of(&identity),
            identity,
            supported_formats: Vec::new(),
            supported_native_identities: Vec::new(),
            requirements: String::new(),
            acquisition_method: if source_build.is_some() {
                RuntimeAcquisitionMethod::SourceBuild
            } else {
                RuntimeAcquisitionMethod::OfficialReleaseAsset
            },
            source_url: None,
            downloaded_archive_sha256: source_build.is_none().then_some("d".repeat(64)),
            additional_downloaded_archive_sha256: Vec::new(),
            source_build,
            entrypoint: "server".to_owned(),
            entrypoint_sha256: "c".repeat(64),
            installed_at_unix: Some(1),
            probe: RuntimeProbeObservation {
                compatible: true,
                observed_engine_id: "fixture-engine".to_owned(),
                observed_version: Some(version.to_owned()),
                observed_revision: None,
                detail: "fixture".to_owned(),
                observed_at_unix: 1,
            },
        },
        installation_root: String::new(),
        engine_variant: None,
    }
}

/// A runtime of which only the identity counts, as its engine sees it.
fn installed_as(identity: &RuntimeIdentity, ask_engine: bool) -> InstalledRuntime {
    let mut runtime = installed_fixture(&identity.version, None);
    runtime.manifest.identity = identity.duplicate();
    runtime.manifest.runtime_id = runtime_id_of(identity);
    runtime.engine_variant = ask_engine.then_some(fixture_variant(identity));
    runtime
}

fn q27_identity(version: &str, variant: &str, package_family: &str) -> RuntimeIdentity {
    let from_source = package_family.contains("source");
    RuntimeIdentity {
        engine_id: "q27".to_owned(),
        package_family: package_family.to_owned(),
        version: version.to_owned(),
        upstream_revision: from_source.then_some("a".repeat(40)),
        platform: "linux".to_owned(),
        architecture: "x86_64".to_owned(),
        accelerator: "cuda".to_owned(),
        variant: variant.to_owned(),
        package: RuntimePackageIdentity {
            provider_id: "q27-official-github".to_owned(),
            repository: Some("signalnine/q27".to_owned()),
            release_tag: Some(format!("v{version}")),
            asset_id: (!from_source).then_some("1".to_owned()),
            asset_name: (!from_source).then_some(format!("q27-v{version}-linux-x86_64.tar.gz")),
            additional_assets: Vec::new(),
        },
    }
}

fn available_fixture(identity: RuntimeIdentity) -> AvailableRuntime {
    AvailableRuntime {
        runtime_id: runtime_id_of(&identity),
        identity,
        supported_formats: vec!["q27".to_owned()],
        source_url: "https://github.com/signalnine/q27".to_owned(),
        published_at_unix: Some(1),
        channels: vec![RuntimeReleaseChannel::Stable, RuntimeReleaseChannel::Latest],
        prerelease: false,
        acquisition: RuntimeAcquisitionPlan::ReleaseAsset {
            digest: None,
            additional_digests: Vec::new(),
        },
        requirements: String::new(),
        engine_variant: None,
    }
}

fn available_as(identity: RuntimeIdentity) -> AvailableRuntime {
    let variant = fixture_variant(&identity);
    let mut available = available_fixture(identity);
    available.engine_variant = Some(variant);
    available
}

fn duplicate_available(available: &AvailableRuntime) -> AvailableRuntime {
    let mut copy = available_fixture(available.identity.duplicate());
    copy.runtime_id = available.runtime_id.clone();
    copy.engine_variant = available.engine_variant.as_ref().map(|variant| variant.duplicate());
    copy
}

#[test]
fn source_update_states_follow_git_ancestry_only() {
    let candidate = "ninfer-candidate";
    assert!(matches!(
        source_history_update_state(
            RuntimeUpdatePreference::Latest,
            candidate,
            "git-new",
            &GitHubCompare {
                status: GitHubComparisonStatus::Identical,
                ahead_by: 0,
                behind_by: 0,
            },
            Order::Equal,
        ),
        RuntimeUpdateState::Current
    ));
    assert!(matches!(
        source_history_update_state(
            RuntimeUpdatePreference::Latest,
            candidate,
            "git-new",
            &GitHubCompare {
                status: GitHubComparisonStatus::Ahead,
                ahead_by: 3,
                behind_by: 0,
            },
            Order::Equal,
        ),
        RuntimeUpdateState::NewerCompatibleVersion { runtime_id, .. }
            if runtime_id == candidate
    ));
    for status in [
        GitHubComparisonStatus::Behind,
        GitHubComparisonStatus::Diverged,
    ] {
        assert!(matches!(
            source_history_update_state(
                RuntimeUpdatePreference::Latest,
                candidate,
                "git-new",
                &GitHubCompare {
                    status,
                    ahead_by: 0,
                    behind_by: 1,
                },
                Order::Equal,
            ),
            RuntimeUpdateState::ProviderError(_)
        ));
    }
}

#[test]
fn pinned_source_selection_reports_but_does_not_apply_descendant() {
    let candidate = "ninfer-candidate";
    assert!(matches!(
        source_history_update_state(
            RuntimeUpdatePreference::Pinned,
            candidate,
            "git-new",
            &GitHubCompare {
                status: GitHubComparisonStatus::Ahead,
                ahead_by: 1,
                behind_by: 0,
            },
            Order::Equal,
        ),
        RuntimeUpdateState::Pinned {
            newer_runtime_id: Some(runtime_id),
            ..
        } if runtime_id == candidate
    ));
}

#[test]
fn newer_recipe_generation_updates_an_identical_source_revision() {
    let candidate = "llama-candidate";
    assert!(matches!(
        source_history_update_state(
            RuntimeUpdatePreference::Latest,
            candidate,
            "b12345",
            &GitHubCompare {
                status: GitHubComparisonStatus::Identical,
                ahead_by: 0,
                behind_by: 0,
            },
            Order::Greater,
        ),
        RuntimeUpdateState::NewerCompatibleVersion { runtime_id, .. }
            if runtime_id == candidate
    ));
    assert!(matches!(
        source_history_update_state(
            RuntimeUpdatePreference::Pinned,
            candidate,
            "b12345",
            &GitHubCompare {
                status: GitHubComparisonStatus::Identical,
                ahead_by: 0,
                behind_by: 0,
            },
            Order::Greater,
        ),
        RuntimeUpdateState::Pinned {
            newer_runtime_id: Some(runtime_id),
            ..
        } if runtime_id == candidate
    ));
}

#[test]
fn recipe_update_lines_are_explicit_and_never_offer_a_downgrade() {
    let installed_v1 = q27_identity("1.0.0", "recipe-v1", "fixture-family");
    let installed_v3 = q27_identity("1.0.0", "recipe-v3", "fixture-family");
    let candidate_v2 = available_as(q27_identity("1.0.0", "recipe-v2", "fixture-family"));
    let candidate_v3 = available_as(installed_v3.duplicate());
    let unknown_v4 = available_as(q27_identity("1.0.0", "recipe-v4", "fixture-family"));

    assert!(same_update_line(
        &installed_as(&installed_v1, true),
        &candidate_v3
    ));
    assert_eq!(
        source_recipe_ordering(
            &fixture_variant(&installed_v1),
            &candidate_v3.update_variant(true)
        ),
        Order::Greater
    );
    assert_eq!(
        source_recipe_ordering(
            &fixture_variant(&installed_v3),
            &candidate_v2.update_variant(true)
        ),
        Order::Less
    );
    assert!(!same_update_line(
        &installed_as(&installed_v3, true),
        &unknown_v4
    ));
}

#[test]
fn q27_binary_and_source_releases_share_only_their_exact_logical_update_line() {
    let installed_binary = q27_identity("0.6.2", "w12", "q27-official-release");
    let source = available_fixture(q27_identity(
        "0.10.0",
        "w12",
        "q27-official-source-q27-upstream-make-v2-4770e05",
    ));
    assert!(same_update_line(&installed_as(&installed_binary, false), &source));
    assert!(matches!(
        semantic_release_update_state(
            RuntimeUpdatePreference::Latest,
            &installed_binary,
            &source,
        ),
        RuntimeUpdateState::NewerCompatibleVersion { ref runtime_id, ref version }
            if runtime_id == &source.runtime_id && version == "0.10.0"
    ));
    assert!(matches!(
        semantic_release_update_state(
            RuntimeUpdatePreference::Pinned,
            &installed_binary,
            &source,
        ),
        RuntimeUpdateState::Pinned { newer_runtime_id: Some(ref runtime_id), .. }
            if runtime_id == &source.runtime_id
    ));

    let installed_source = q27_identity(
        "0.10.0",
        "w12",
        "q27-official-source-q27-upstream-make-v2-4770e05",
    );
    let newer_binary = available_fixture(q27_identity("0.11.0", "w12", "q27-official-release"));
    assert!(same_update_line(&installed_as(&installed_source, false), &newer_binary));
    assert!(matches!(
        semantic_release_update_state(
            RuntimeUpdatePreference::Stable,
            &installed_source,
            &newer_binary,
        ),
        RuntimeUpdateState::NewerCompatibleVersion { ref runtime_id, .. }
            if runtime_id == &newer_binary.runtime_id
    ));

    let w8 = available_fixture(q27_identity(
        "0.10.0",
        "w8",
        "q27-official-source-q27-upstream-make-v2-4770e05",
    ));
    assert!(!same_update_line(&installed_as(&installed_binary, false), &w8));

    let mut other_provider = duplicate_available(&source);
    other_provider.identity.package.provider_id = "another-provider".to_owned();
    other_provider.runtime_id = runtime_id_of(&other_provider.identity);
    assert!(!same_update_line(&installed_as(&installed_binary, false), &other_provider));
}

#[test]
fn same_day_source_fallback_uses_commit_recency_not_sha_digits() {
    let older = installed_fixture(
        "git-20260828-99999999",
        Some((1_787_961_600, "9999999999999999999999999999999999999999")),
    );
    let newer = installed_fixture(
        "git-20260828-aaaaaaaa",
        Some((1_787_965_200, "aaaaaaaaaaaaaaaaaaaaaaaaaaaaaaaaaaaaaaaa")),
    );
    assert_eq!(
        compare_versions(
            &older.manifest.identity.version,
            &newer.manifest.identity.version
        ),
        Order::Greater,
        "the legacy numeric comparator demonstrates the SHA-fragment bug"
    );

    let mut fallback_candidates = [older, newer.duplicate()];
    fallback_candidates.sort_by(|left, right| {
        match compare_installed_recency(right, left, false) {
            Order::Less => std::cmp::Ordering::Less,
            Order::Equal => std::cmp::Ordering::Equal,
            Order::Greater => std::cmp::Ordering::Greater,
        }
    });
    assert_eq!(
        fallback_candidates[0].manifest.runtime_id,
        newer.manifest.runtime_id
    );

    let release_v1 = installed_fixture("v1.9.0", None);
    let release_v2 = installed_fixture("v2.0.0", None);
    assert_eq!(
        compare_installed_recency(&release_v2, &release_v1, false),
        Order::Greater
    );
    assert_eq!(
        compare_installed_recency_inner(&release_v2, &release_v1, false, true),
        Order::Greater
    );
}

#[test]
fn installed_recipe_generations_rank_with_engine_owned_update_identity() {
    let mut v2 = installed_fixture(
        "git-20260831-aaaaaaaa",
        Some((1_788_134_400, "aaaaaaaaaaaaaaaaaaaaaaaaaaaaaaaaaaaaaaaa")),
    );
    v2.manifest.identity.variant = "recipe-v2".to_owned();
    v2.manifest.runtime_id = runtime_id_of(&v2.manifest.identity);
    v2.manifest
        .source_build
        .as_mut()
        .expect("source fixture")
        .recipe_version = "recipe-v2".to_owned();
    v2.engine_variant = Some(fixture_variant(&v2.manifest.identity));

    let mut v3 = v2.duplicate();
    v3.manifest.identity.variant = "recipe-v3".to_owned();
    v3.manifest.runtime_id = runtime_id_of(&v3.manifest.identity);
    v3.manifest
        .source_build
        .as_mut()
        .expect("source fixture")
        .recipe_version = "recipe-v3".to_owned();
    v3.engine_variant = Some(fixture_variant(&v3.manifest.identity));

    assert_eq!(compare_installed_recency(&v3, &v2, true), Order::Greater);
    assert_eq!(
        compare_installed_recency_inner(&v3, &v2, true, true),
        Order::Greater
    );
    assert_eq!(
        compare_installed_recency(&v2, &v3, true),
        Order::Less,
        "a lower recipe generation cannot win through RuntimeId ordering"
    );

    let mut newer_source_v2 = v2.duplicate();
    newer_source_v2.manifest.identity.version = "git-20260901-bbbbbbbb".to_owned();
    newer_source_v2.manifest.identity.upstream_revision = Some("b".repeat(40));
    newer_source_v2.manifest.runtime_id = runtime_id_of(&newer_source_v2.manifest.identity);
    newer_source_v2.engine_variant = Some(fixture_variant(&newer_source_v2.manifest.identity));
    let source = newer_source_v2
        .manifest
        .source_build
        .as_mut()
        .expect("source fixture");
    source.source.commit_timestamp_unix += 86_400;
    source.source.commit_sha = "b".repeat(40);
    assert_eq!(
        compare_installed_recency(&newer_source_v2, &v3, true),
        Order::Greater,
        "a genuinely newer upstream source still outranks an older source recipe generation"
    );

    let mut intentional_variant = v3.duplicate();
    intentional_variant.manifest.identity.variant = "specialist".to_owned();
    intentional_variant.manifest.runtime_id = runtime_id_of(&intentional_variant.manifest.identity);
    intentional_variant.engine_variant =
        Some(fixture_variant(&intentional_variant.manifest.identity));
    let source = intentional_variant
        .manifest
        .source_build
        .as_mut()
        .expect("source fixture");
    source.source.commit_timestamp_unix += 86_400;
    source.source.commit_sha = "c".repeat(40);
    assert_eq!(
        compare_installed_recency(&v3, &intentional_variant, true),
        Order::Equal,
        "recipe generations must not cross-rank distinct functional variants"
    );
}

#[test]
fn default_variant_recency_preserves_q27_and_ninfer_style_behavior() {
    let older = installed_fixture("v1.9.0", None);
    let newer = installed_fixture("v2.0.0", None);
    assert_eq!(
        compare_installed_recency(&newer, &older, false),
        Order::Greater
    );

    let older_source = installed_fixture(
        "git-20260830-ffffffff",
        Some((1_788_048_000, "ffffffffffffffffffffffffffffffffffffffff")),
    );
    let newer_source = installed_fixture(
        "git-20260831-00000000",
        Some((1_788_134_400, "0000000000000000000000000000000000000000")),
    );
    assert_eq!(
        compare_installed_recency(&newer_source, &older_source, false),
        Order::Greater
    );
    for engine_id in ["llama.cpp", "q27", "ninfer", "future-engine"] {
        let mut older = older_source.duplicate();
        let mut newer = newer_source.duplicate();
        older.manifest.identity.engine_id = engine_id.to_owned();
        newer.manifest.identity.engine_id = engine_id.to_owned();
        newer.manifest.identity.variant = "specialist".to_owned();
        older.engine_variant = Some(fixture_variant(&older.manifest.identity));
        newer.engine_variant = Some(fixture_variant(&newer.manifest.identity));
        assert_eq!(
            compare_installed_recency_inner(&newer, &older, true, true),
            Order::Greater,
        );
        older
            .manifest
            .source_build
            .as_mut()
            .expect("source fixture")
            .source
            .commit_timestamp_unix = newer
            .manifest
            .source_build
            .as_ref()
            .expect("source fixture")
            .source
            .commit_timestamp_unix;
        assert_eq!(
            compare_installed_recency_inner(&newer, &older, true, true),
            Order::Equal,
            "equal commit times must not be ranked by SHA",
        );
        older.manifest.source_build = newer
            .manifest
            .source_build
            .as_ref()
            .map(|source_build| source_build.duplicate());
        assert_eq!(
            compare_installed_recency_inner(&newer, &older, true, true),
            Order::Equal,
            "variants of the same newest lineage share the badge",
        );
    }
}

#[test]
fn source_provenance_matches_effective_cmake_configuration_and_legacy_manifests() {
    let installed = installed_fixture(
        "git-20260831-aaaaaaaa",
        Some((1_788_134_400, "aaaaaaaaaaaaaaaaaaaaaaaaaaaaaaaaaaaaaaaa")),
    );
    let legacy = installed
        .manifest
        .source_build
        .expect("source-build provenance");
    let plan = RuntimeSourceBuildPlan {
        source: legacy.source.duplicate(),
        recipe_version: legacy.recipe_version.clone(),
        build_system: RuntimeSourceBuildSystem::Cmake,
        cmake_configuration_arguments: Vec::new(),
        effective_arguments: Ok(Some(vec![
            "-DCMAKE_CUDA_COMPILER=/usr/local/cuda/bin/nvcc".to_owned(),
        ])),
        build_target: legacy.build_target.clone(),
        accelerator_target: legacy.accelerator_target.clone(),
    };

    assert!(
        source_build_provenance_matches_plan(&legacy, &plan),
        "legacy manifests without an effective list remain readable and match their recipe"
    );

    let mut current = legacy.duplicate();
    current.effective_cmake_configuration_arguments = Some(vec![
        "-DCMAKE_CUDA_COMPILER=/usr/local/cuda/bin/nvcc".to_owned(),
    ]);
    assert!(source_build_provenance_matches_plan(&current, &plan));

    current.effective_cmake_configuration_arguments =
        Some(vec!["-DCMAKE_CUDA_COMPILER=/other/nvcc".to_owned()]);
    assert!(!source_build_provenance_matches_plan(&current, &plan));
}

#[test]
fn recency_flips_when_the_runtimes_are_exchanged() {
    let runtimes = [
        installed_fixture("v1.9.0", None),
        installed_fixture("v2.0.0", None),
        installed_fixture("git-20260830-ffffffff", Some((1_788_048_000, "ffff"))),
        installed_fixture("git-20260831-00000000", Some((1_788_134_400, "0000"))),
    ];
    for left in &runtimes {
        for right in &runtimes {
            assert_eq!(
                compare_installed_recency_with_registry(left, right),
                compare_installed_recency_with_registry(right, left).reverse()
            );
            assert!(
                !(is_proven_superseding_installed_runtime(left, right)
                    && is_proven_superseding_installed_runtime(right, left))
            );
        }
    }
    assert!(is_proven_superseding_installed_runtime(&runtimes[1], &runtimes[0]));
    assert!(
        !is_proven_superseding_installed_runtime(&runtimes[3], &runtimes[2]),
        "a later commit alone proves no replacement"
    );
}

#[test]
fn versions_are_compared_by_their_numbers() {
    assert_eq!(version_parts("v1.10.0-rc2"), [1, 10, 0, 2]);
    assert_eq!(version_parts(""), [] as [u64; 0]);
    assert_eq!(compare_versions("v1.10.0", "v1.9.0"), Order::Greater);
    assert_eq!(compare_versions("1.2", "1.2"), Order::Equal);
    assert_eq!(compare_versions("b100", "b99"), Order::Greater);
    assert_eq!(compare_versions("1.2", "1.2.1"), Order::Less);
    assert_eq!(version_parts("1.99999999999999999999999.2"), [1, 2]);
    assert_eq!(compare_versions("v1.2", "w1.2"), Order::Less);
}

#[test]
fn releases_are_dotted_numbers() {
    assert_eq!(release_parts("0.10.0"), Some(vec![0, 10, 0]));
    assert_eq!(release_parts("git-20260831-aaaaaaaa"), None);
    let mut identity = q27_identity("0.10.0", "w12", "q27-official-release");
    assert!(q27_semantic_release_identity(&identity));
    identity.package.release_tag = Some("v0.10.1".to_owned());
    assert!(!q27_semantic_release_identity(&identity));
}

#[test]
fn missing_times_come_before_all_others() {
    assert_eq!(compare_times(None, Some(i64::MIN)), Order::Less);
    assert_eq!(compare_times(Some(3), Some(2)), Order::Greater);
    assert_eq!(compare_times(None, None), Order::Equal);
}

#[test]
fn channels_limit_what_is_offered() {
    let mut candidate = available_fixture(q27_identity("0.10.0", "w12", "q27-official-release"));
    candidate.channels = vec![RuntimeReleaseChannel::Stable];
    assert!(update_channel_matches(RuntimeUpdatePreference::Stable, None, &candidate));
    assert!(!update_channel_matches(RuntimeUpdatePreference::Latest, None, &candidate));
    candidate.channels = vec![RuntimeReleaseChannel::Latest];
    assert!(!update_channel_matches(RuntimeUpdatePreference::Stable, None, &candidate));
    assert!(update_channel_matches(RuntimeUpdatePreference::Latest, None, &candidate));
}

#[test]
fn recent_candidates_are_preferred() {
    let installed = q27_identity("0.6.2", "w12", "q27-official-release");
    let mut older = available_fixture(q27_identity("0.9.0", "w12", "q27-official-release"));
    let mut newer = available_fixture(q27_identity("0.9.1", "w12", "q27-official-release"));
    older.published_at_unix = Some(1);
    newer.published_at_unix = Some(2);
    let forward = compare_source_update_candidates(&installed, &older, &newer);
    let backward = compare_source_update_candidates(&installed, &newer, &older);
    assert_eq!(forward, Order::Less);
    assert_eq!(backward, Order::Greater);
}

#[test]
fn the_worse_judgement_of_two_counts() {
    let combined = combine_compatibility(
        RuntimeCompatibility::Recommended,
        RuntimeCompatibility::Incompatible("no kernel".to_owned()),
    );
    assert!(matches!(combined, RuntimeCompatibility::Incompatible(ref reason) if reason == "no kernel"));
    assert!(!combined.is_usable());
    let combined = combine_compatibility(
        RuntimeCompatibility::Recommended,
        RuntimeCompatibility::Recommended,
    );
    assert!(matches!(combined, RuntimeCompatibility::Recommended));
    let combined = combine_compatibility(
        RuntimeCompatibility::NeedsAttention("host".to_owned()),
        RuntimeCompatibility::Compatible,
    );
    assert!(matches!(combined, RuntimeCompatibility::NeedsAttention(ref reason) if reason == "host"));
    assert_eq!(combined.preference_rank(), 2);
}

#[test]
fn published_digests_must_be_those_installed() {
    let identity = q27_identity("0.10.0", "w12", "q27-official-release");
    let mut installed = installed_as(&identity, false);
    let mut available = available_fixture(identity);
    installed.manifest.supported_formats = vec!["q27".to_owned()];
    installed.manifest.source_url = Some(available.source_url.clone());
    installed.manifest.downloaded_archive_sha256 = Some("d".repeat(64));
    available.acquisition = RuntimeAcquisitionPlan::ReleaseAsset {
        digest: Some("d".repeat(64)),
        additional_digests: Vec::new(),
    };
    let agreeing = ensure_catalog_provenance_matches(&installed, &available);
    available.acquisition = RuntimeAcquisitionPlan::ReleaseAsset {
        digest: Some("e".repeat(64)),
        additional_digests: Vec::new(),
    };
    let differing = ensure_catalog_provenance_matches(&installed, &available);
    assert!(agreeing.is_ok());
    assert!(matches!(differing, Err(RuntimePackError::Other(_))));
}

#[test]
fn acquisition_methods_are_ranked() {
    let release = installed_fixture("v2.0.0", None);
    let source = installed_fixture("git-20260831-00000000", Some((1_788_134_400, "0000")));
    let mut external = installed_fixture("v2.0.0", None);
    external.manifest.acquisition_method = RuntimeAcquisitionMethod::ExternalBinary;
    assert_eq!(acquisition_rank(&release), 0);
    assert_eq!(acquisition_rank(&source), 0);
    assert_eq!(acquisition_rank(&external), 1);
}

#[test]
fn records_of_different_builds_are_different_records() {
    let runtime = installed_fixture("v1", Some((10, "a")));
    let there = vec![runtime.duplicate()];
    assert!(matches!(admit_activation(&there, &runtime.manifest), Ok(Some(0))));
    let changes: [fn(&mut RuntimeSourceBuildProvenance); 8] = [
        |build| build.build_definition_sha256 = Some("e".repeat(64)),
        |build| build.toolchain.nvcc_version = "12.8".to_owned(),
        |build| {
            build.toolchain.system_dependencies.insert("openssl".to_owned(), "3".to_owned());
        },
        |build| build.build_platform = "windows".to_owned(),
        |build| build.build_architecture = "aarch64".to_owned(),
        |build| build.built_at_unix = 11,
        |build| build.entrypoint = "bin/server".to_owned(),
        |build| build.entrypoint_sha256 = "f".repeat(64),
    ];
    for change in changes {
        let mut other = runtime.manifest.duplicate();
        change(other.source_build.as_mut().expect("build"));
        assert!(matches!(
            admit_activation(&there, &other),
            Err(RuntimeStoreError::ProvenanceConflict { .. })
        ));
        assert!(matches!(
            verify_exact_manifest(&other, &runtime.manifest, "/data/x"),
            Err(RuntimeStoreError::InvalidManifest { .. })
        ));
    }
    let mut spelled = runtime.manifest.duplicate();
    spelled.entrypoint = "server/".to_owned();
    assert!(verify_exact_manifest(&spelled, &runtime.manifest, "/data/x").is_ok());
}
