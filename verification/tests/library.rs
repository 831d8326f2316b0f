use norted::acquisition::{
    check_membership, check_package_digest, check_package_file, complete_download,
    max_parallel_downloads_from_settings, record_package, record_single, remote_provenance,
    resolving, setting_definition, stage_name, validate_package_stage, Acquisition,
    AcquisitionStep, DownloadOutcome, FetchStage, FetchStart, StagedArtifact,
};
use norted::downloads::{ModelDownloadJobId, ModelOperationPhase};
use norted::hashing::FileDigest;
use norted::hub::{
    begin_resolution, consider_manifest, find_file, into_catalog, nearest_package_manifest,
    package_role_name, resolve_alone, resolve_packaged, tokenizer_candidates, CatalogSearch, HfLfs,
    HfRepository, HfSibling, ManifestPlan, PackageRole, PackageSearch, PlannedFile,
    ResolvedArtifact, ResolvedFile, SiblingFacts,
};
use norted::imports::{
    check_copied, check_manifest_bound, check_paired, check_relative, check_selected, check_source,
    check_vacant, discover_exact, find_source, is_manifest_size, local_package_root,
    needs_tokenizer, record_imported_file, record_imported_package, safe_basename,
    validate_raw_q27_tokenizer, TokenizerLook, MAX_PACKAGE_MANIFEST_BYTES,
};
use norted::inference::SettingValue;
use norted::paths::{
    path_parts, plain_name, safe_relative, same_path, same_remote_directory, slash_path, PathPart,
};
use norted::provenance::sha256_text;
use norted::receipts::{
    check_removal, find_acquisition, make_receipt, plan_removal, DiscoveredModel, MemberLook,
    ModelLibraryReceipt, ObservedMember, RECEIPT_SCHEMA_VERSION,
};
use norted::references::{
    acquisition_lock_name, download_partial_name, file_address, file_is_reachable, import_place,
    is_provider_of, is_reachable, managed_destination, parse_hf_ref, provider_for,
    remote_acquisition_id, repository_address, repository_is_reachable, safe_remote_path,
    safe_segment, search_address, write_reference, HfReference, ModelLibraryError,
};
use norted::table::Table;

fn texts(list: &[&str]) -> Vec<String> {
    list.iter().map(|text| text.to_string()).collect()
}

fn sibling(name: &str, size: Option<u64>) -> HfSibling {
    HfSibling { rfilename: name.to_owned(), size, lfs: None }
}

fn reference(filename: &str) -> HfReference {
    HfReference {
        repository: "owner/model".to_owned(),
        revision: "main".to_owned(),
        filename: filename.to_owned(),
    }
}

fn repository(files: &[&str]) -> HfRepository {
    HfRepository {
        id: "owner/model".to_owned(),
        sha: Some("abc123".to_owned()),
        siblings: files.iter().map(|name| sibling(name, Some(10))).collect(),
    }
}

fn message_of<T>(result: Result<T, ModelLibraryError>) -> String {
    match result {
        Ok(_) => panic!("an error was expected"),
        Err(error) => error.message(),
    }
}

#[test]
fn references_are_read_back() {
    let written = write_reference("owner/model", "main", "dir/model.gguf");
    assert_eq!(written, "huggingface:owner/model@main/dir/model.gguf");
    let read = parse_hf_ref(&written).ok().expect("reference");
    assert_eq!(read.repository, "owner/model");
    assert_eq!(read.revision, "main");
    assert_eq!(read.filename, "dir/model.gguf");
}

#[test]
fn invalid_references_say_what_is_missing() {
    assert_eq!(
        message_of(parse_hf_ref("owner/model")),
        "invalid model reference: expected huggingface:<publisher>/<repository>@<revision>/<filename>"
    );
    assert_eq!(
        message_of(parse_hf_ref("huggingface:owner/model")),
        "invalid model reference: Hugging Face reference is missing @revision"
    );
    assert_eq!(
        message_of(parse_hf_ref("huggingface:owner/model@main")),
        "invalid model reference: Hugging Face reference is missing filename"
    );
    for broken in [
        "huggingface:owner@main/model.gguf",
        "huggingface:owner/model@/model.gguf",
        "huggingface:owner/model@main/",
        "huggingface:owner/model@main/../model.gguf",
        "huggingface:owner/model@main//etc/passwd",
    ] {
        assert!(matches!(
            parse_hf_ref(broken),
            Err(ModelLibraryError::InvalidReference(text)) if text == broken
        ));
    }
}

#[test]
fn providers_are_found_by_prefix() {
    let providers = texts(&["local", "huggingface"]);
    assert!(is_provider_of("huggingface", "huggingface:owner/model"));
    assert!(!is_provider_of("hugging", "huggingface:owner/model"));
    assert!(matches!(provider_for(&providers, "huggingface:x"), Ok(1)));
    assert!(provider_for(&providers, "other:x").is_err());
}

#[test]
fn addresses_are_escaped() {
    assert_eq!(
        file_address("owner/model", "main", "dir/my model.gguf").ok().expect("address"),
        "https://huggingface.co/owner/model/resolve/main/dir/my%20model.gguf"
    );
    let information = repository_address("owner/model", &Some("v1 beta".to_owned()))
        .ok()
        .expect("address");
    assert!(information
        .starts_with("https://huggingface.co/api/models/owner/model/revision/v1%20beta"));
    let search = search_address("llama & more").ok().expect("address");
    assert!(search.starts_with("https://huggingface.co/api/models?"));
    assert!(search.contains("search=llama+%26+more"));
    let long = search_address(&"x".repeat(20_000_001)).ok().expect("address");
    assert!(long.len() > 20_000_001 && long.contains("search=xxx"));
    let deep = "d/".repeat(20_000) + "model.gguf";
    assert!(file_is_reachable("owner/model", "main", &deep));
    let address = file_address("owner/model", "main", &deep).ok().expect("address");
    assert!(address.ends_with("/d/d/model.gguf"));
    assert!(repository_is_reachable("owner/model", &None));
    assert!(is_reachable(&texts(&["a", "\u{1f600}"])));
}

#[test]
fn segments_and_paths_of_the_hub_are_checked() {
    assert!(safe_segment("owner").is_ok());
    for unsafe_text in ["", "..", "a/b", "."] {
        assert!(safe_segment(unsafe_text).is_err());
    }
    assert!(safe_remote_path("dir/model.gguf").is_ok());
    for unsafe_text in ["", "../model.gguf", "/model.gguf", "dir/../model.gguf"] {
        assert!(matches!(
            safe_remote_path(unsafe_text),
            Err(ModelLibraryError::InvalidCatalog(_))
        ));
    }
    assert_eq!(
        managed_destination("owner/model", "main", "model.gguf").ok().expect("place"),
        ["huggingface", "owner", "model", "main", "c0549eba81e0af46"]
    );
    assert_eq!(
        message_of(managed_destination("owner/model", "..", "model.gguf")),
        "model catalog entry is invalid: unsafe path segment `..`"
    );
}

#[test]
fn acquisitions_have_names_of_their_own() {
    assert_eq!(
        remote_acquisition_id("huggingface", "owner/model", "main", "model.gguf"),
        "huggingface:owner/model@main:model.gguf"
    );
    let partial = download_partial_name("reference", "url");
    assert_eq!(partial, format!("{}.part", sha256_text("reference\0url")));
    assert_ne!(partial, download_partial_name("referenceu", "rl"));
    assert_eq!(
        acquisition_lock_name("model.gguf"),
        "c0549eba81e0af46821d2fa5d6190d76cd812fb69a2f9be876b09d88c5f6e554.lock"
    );
    let (id, place) = import_place("model.gguf");
    assert_eq!(
        id,
        "local-import:c0549eba81e0af46821d2fa5d6190d76cd812fb69a2f9be876b09d88c5f6e554"
    );
    assert_eq!(place, ["imports", "c0549eba81e0"]);
    let stage = stage_name();
    assert!(stage.starts_with("stage-"));
    assert_eq!(stage.len(), "stage-".len() + 36);
    assert_ne!(stage, stage_name());
}

#[test]
fn digests_are_those_of_all_the_pieces() {
    assert_eq!(
        sha256_text(""),
        "e3b0c44298fc1c149afbf4c8996fb92427ae41e4649b934ca495991b7852b855"
    );
    let expected = "ba7816bf8f01cfea414140de5dae2223b00361a396177a9cb410ff61f20015ad";
    assert_eq!(sha256_text("abc"), expected);
    let mut digest = FileDigest::new();
    digest.update(b"a");
    digest.update(b"");
    digest.update(b"bc");
    assert_eq!(digest.finish(), expected);
}

#[test]
fn paths_are_taken_apart() {
    let parts = path_parts("/a//b/./../c");
    assert!(matches!(parts[0], PathPart::Root));
    assert!(matches!(parts[1], PathPart::Name(ref name) if name == "a"));
    assert!(matches!(parts[3], PathPart::Up));
    assert_eq!(parts.len(), 5);
    assert!(safe_relative("a/b"));
    assert!(!safe_relative("a/../b"));
    assert!(!safe_relative("/a"));
    assert!(!safe_relative(""));
    assert!(plain_name("model.gguf"));
    assert!(!plain_name("a/b"));
    assert!(same_path("a//b", "a/b/."));
    assert!(!same_path("a/b", "b/a"));
    assert_eq!(slash_path("a//b/"), "a/b");
    assert!(same_remote_directory("dir/a.q27", "dir/b.tok"));
    assert!(!same_remote_directory("dir/a.q27", "b.tok"));
}

#[test]
fn repositories_become_catalog_entries() {
    let mut found = repository(&["pack/norted-package.json", "pack/a.q27", "b.q27", "b.tok", "c.gguf", "README.md"]);
    found.siblings[4].lfs = Some(HfLfs { sha256: Some("dd".to_owned()), size: Some(99) });
    found.siblings[4].size = None;
    let facts = |tokenizer: Option<&str>| {
        found
            .siblings
            .iter()
            .map(|sibling| SiblingFacts {
                format: if sibling.rfilename.ends_with(".q27") {
                    Some("q27".to_owned())
                } else if sibling.rfilename.ends_with(".gguf") {
                    Some("gguf".to_owned())
                } else {
                    None
                },
                manifest_name: "norted-package.json".to_owned(),
                tokenizer: tokenizer.map(|name| name.to_owned()),
            })
            .collect::<Vec<SiblingFacts>>()
    };
    let catalog = into_catalog(&found, &facts(Some("b.tok")), &None).expect("artifacts");
    assert_eq!(catalog.revision, "abc123");
    let names: Vec<&str> = catalog.artifacts.iter().map(|file| file.filename.as_str()).collect();
    assert_eq!(names, ["pack/a.q27", "b.q27", "c.gguf"]);
    assert_eq!(
        catalog.artifacts[0].package_manifest.as_deref(),
        Some("pack/norted-package.json")
    );
    assert_eq!(catalog.artifacts[1].required_companions, ["b.tok"]);
    assert_eq!(catalog.artifacts[2].size_bytes, Some(99));
    assert_eq!(catalog.artifacts[2].sha256.as_deref(), Some("dd"));
    assert_eq!(
        catalog.artifacts[2].model_ref,
        "huggingface:owner/model@abc123/c.gguf"
    );
    let catalog = into_catalog(&found, &facts(None), &Some("q27".to_owned())).expect("artifacts");
    assert_eq!(catalog.artifacts.len(), 1);
    assert!(into_catalog(&found, &facts(None), &Some("ninfer".to_owned())).is_none());
    let mut search = CatalogSearch::new("llama");
    search.extend(vec![catalog]);
    assert_eq!(search.query, "llama");
    assert_eq!(search.repositories.len(), 1);
    assert_eq!(
        tokenizer_candidates(&found.siblings, "b.q27"),
        ["b.tok"]
    );
    assert!(find_file(&found.siblings, "missing").is_none());
    assert_eq!(
        nearest_package_manifest(&found.siblings, "pack/deep/x.q27", "norted-package.json").as_deref(),
        Some("pack/norted-package.json")
    );
}

#[test]
fn manifests_are_looked_for_from_the_file_upwards() {
    let files = repository(&["a/m.json", "m.json", "a/b/x.q27"]);
    let mut search = PackageSearch::new("a/b/x.q27");
    let (depth, name) = search.next(&files.siblings, "a/b/x.q27", "m.json").expect("nearest");
    assert_eq!((depth, name.as_str()), (1, "a/m.json"));
    let (depth, name) = search.next(&files.siblings, "a/b/x.q27", "m.json").expect("outer");
    assert_eq!((depth, name.as_str()), (0, "m.json"));
    assert!(search.next(&files.siblings, "a/b/x.q27", "m.json").is_none());
}

fn planned(path: &str, role: PackageRole, size: Option<u64>) -> PlannedFile {
    PlannedFile {
        path: path.to_owned(),
        role,
        size_bytes: size,
        sha256: None,
    }
}

#[test]
fn packages_bring_all_their_files() {
    let files = repository(&["p/m.json", "p/x.q27", "p/x.tok"]);
    let plan = ManifestPlan::Valid(vec![
        planned("m.json", PackageRole::Manifest, None),
        planned("x.q27", PackageRole::Primary, Some(10)),
        planned("x.tok", PackageRole::Tokenizer, None),
    ]);
    let (package, downloads) = consider_manifest(
        &files.siblings,
        "owner/model",
        "abc123",
        "p/x.q27",
        1,
        "p/m.json",
        &plan,
    )
    .ok()
    .expect("a valid manifest")
    .expect("a package");
    assert_eq!(package.primary_filenames, ["p/x.q27"]);
    assert_eq!(downloads.len(), 3);
    let resolved = resolve_packaged(
        &reference("p/x.q27"),
        "abc123".to_owned(),
        "q27".to_owned(),
        package,
        downloads,
    )
    .ok()
    .expect("resolved");
    assert_eq!(resolved.primary.filename, "p/x.q27");
    assert_eq!(resolved.companions.len(), 2);
    let consider = |filename: &str, plan: &ManifestPlan| {
        consider_manifest(&files.siblings, "owner/model", "abc123", filename, 1, "p/m.json", plan)
    };
    assert!(message_of(consider("p/x.tok", &plan)).contains("non-primary tokenizer member"));
    assert!(matches!(consider("p/other.q27", &plan), Ok(None)));
    let missing = ManifestPlan::Valid(vec![
        planned("x.q27", PackageRole::Primary, None),
        planned("gone.tok", PackageRole::Tokenizer, None),
    ]);
    assert_eq!(
        message_of(consider("p/x.q27", &missing)),
        "model catalog entry is invalid: Norted package manifest references missing file `p/gone.tok`"
    );
    let disagreeing = ManifestPlan::Valid(vec![planned("x.q27", PackageRole::Primary, Some(11))]);
    assert!(message_of(consider("p/x.q27", &disagreeing)).contains("catalog size disagrees"));
    let invalid = |claims_selected: bool| ManifestPlan::Invalid {
        error: "bad schema".to_owned(),
        claims_selected,
    };
    assert!(message_of(consider("p/x.q27", &invalid(true))).contains("is invalid: bad schema"));
    assert!(matches!(consider("p/x.q27", &invalid(false)), Ok(None)));
    assert_eq!(package_role_name(PackageRole::Sharp), "Sharp metadata");
}

#[test]
fn single_files_bring_their_tokenizer() {
    let files = repository(&["x.q27", "x.tok", "y.gguf"]);
    let begun = begin_resolution(&reference("y.gguf"), &files, &Some("gguf".to_owned()));
    assert_eq!(
        begun.ok().expect("begun"),
        ("abc123".to_owned(), "gguf".to_owned())
    );
    assert_eq!(
        message_of(begin_resolution(&reference("y.bin"), &files, &None)),
        "invalid model reference: artifact must end in .gguf, .q27, or .ninfer"
    );
    assert_eq!(
        message_of(begin_resolution(&reference("z.gguf"), &files, &Some("gguf".to_owned()))),
        "invalid model reference: owner/model does not contain z.gguf at revision abc123"
    );
    let resolve = |filename: &str, format: &str, tokenizer: Result<Option<String>, String>| {
        resolve_alone(
            &reference(filename),
            &files.siblings,
            "abc123".to_owned(),
            format.to_owned(),
            &tokenizer,
        )
    };
    assert!(resolve("y.gguf", "gguf", Ok(None)).is_ok_and(|file| file.companions.is_empty()));
    let q27 = resolve("x.q27", "q27", Ok(Some("x.tok".to_owned()))).ok().expect("resolved");
    assert_eq!(q27.companions[0].filename, "x.tok");
    assert_eq!(
        message_of(resolve("x.q27", "q27", Ok(None))),
        "model catalog entry is invalid: q27 artifact x.q27 has no tokenizer companion"
    );
    assert!(message_of(resolve("x.q27", "q27", Err("two tokenizers".to_owned())))
        .ends_with("two tokenizers"));
}

fn artifact(size: Option<u64>, sha256: Option<&str>) -> ResolvedArtifact {
    ResolvedArtifact {
        provider: "huggingface".to_owned(),
        repository: "owner/model".to_owned(),
        revision: "abc123".to_owned(),
        primary: ResolvedFile {
            filename: "dir/model.gguf".to_owned(),
            url: "https://huggingface.co/owner/model/resolve/abc123/dir/model.gguf".to_owned(),
            size_bytes: size,
            sha256: sha256.map(|digest| digest.to_owned()),
        },
        companions: Vec::new(),
        format: "gguf".to_owned(),
        package: None,
    }
}

fn job() -> ModelDownloadJobId {
    ModelDownloadJobId::from_text("job")
}

#[test]
fn downloads_go_on_where_they_stopped() {
    let resolved = artifact(Some(100), Some("AB"));
    let mut acquisition = Acquisition::begin(&job(), "reference", &resolved);
    assert!(acquisition.accept("dir/model.gguf").is_ok());
    assert_eq!(
        message_of(acquisition.accept("dir//model.gguf")),
        "model catalog entry is invalid: remote acquisition contains colliding path `dir//model.gguf`"
    );
    assert!(message_of(acquisition.accept("../x")).contains("unsafe remote filename"));
    let mut fetch = acquisition.fetch(&resolved.primary);
    assert_eq!(
        fetch.look(40),
        FetchStart::Ask { discard: false, range: Some("bytes=40-".to_owned()) }
    );
    assert!(fetch.answer(true));
    fetch.receive(60);
    assert_eq!(fetch.bytes(), 100);
    assert!(matches!(fetch.end(), Ok(true)));
    assert_eq!(fetch.stage(), FetchStage::Checking);
    assert!(fetch.check("ab".to_owned()).is_ok());
    assert_eq!(fetch.stage(), FetchStage::Ready);
    acquisition.complete(&fetch);
    let done = acquisition.report(AcquisitionStep::Installed);
    assert_eq!(done.phase, ModelOperationPhase::Installed);
    assert_eq!(done.message, "Model installed");
    assert_eq!(acquisition.context().model_ref, "reference");
}

#[test]
fn broken_downloads_are_refused() {
    let resolved = artifact(Some(100), Some("ab"));
    let acquisition = Acquisition::begin(&job(), "reference", &resolved);
    let mut fetch = acquisition.fetch(&resolved.primary);
    assert_eq!(fetch.look(200), FetchStart::Ask { discard: true, range: None });
    assert!(!fetch.answer(true));
    fetch.receive(99);
    assert_eq!(
        message_of(fetch.end()),
        "model artifact is invalid: dir/model.gguf has 99 bytes; expected 100"
    );
    let mut fetch = acquisition.fetch(&resolved.primary);
    assert_eq!(fetch.look(100), FetchStart::Digest);
    assert_eq!(
        message_of(fetch.check("cd".to_owned())),
        "download checksum mismatch for dir/model.gguf: expected ab, observed cd"
    );
    let mut fetch = acquisition.fetch(&resolved.primary);
    assert_eq!(
        fetch.look(40),
        FetchStart::Ask { discard: false, range: Some("bytes=40-".to_owned()) }
    );
    assert!(!fetch.answer(false), "the whole file is sent again");
    assert_eq!(fetch.bytes(), 0);
    let unchecked = artifact(Some(5), None);
    let mut fetch = Acquisition::begin(&job(), "reference", &unchecked).fetch(&unchecked.primary);
    assert_eq!(fetch.look(5), FetchStart::Keep);
    assert_eq!(fetch.stage(), FetchStage::Ready);
}

#[test]
fn progress_is_reported_under_its_job() {
    let resolved = artifact(Some(100), None);
    let first = resolving(&job(), "hf:owner/model@main/model.gguf");
    assert_eq!(first.phase, ModelOperationPhase::Resolving);
    let acquisition = Acquisition::begin(&job(), "reference", &resolved);
    let mut fetch = acquisition.fetch(&resolved.primary);
    let _ = fetch.look(0);
    let _ = fetch.answer(false);
    fetch.receive(25);
    let report = fetch.report(acquisition.context());
    assert_eq!(report.phase, ModelOperationPhase::Downloading);
    assert_eq!((report.downloaded_bytes, report.total_bytes), (25, Some(100)));
    assert_eq!(report.filename, "dir/model.gguf");
    assert_eq!(report.job_id, job());
    assert_eq!(resolved.count_bytes(), (Some(100), true));
    assert_eq!(
        resolved.acquisition_id(),
        "huggingface:owner/model@abc123:dir/model.gguf"
    );
    assert_eq!(resolved.partial_names("reference").len(), 1);
    assert_eq!(resolved.destination().ok().expect("place")[3], "abc123");
    assert_eq!(acquisition.report_present(100).phase, ModelOperationPhase::Installed);
}

fn staged(path: &str) -> StagedArtifact {
    StagedArtifact {
        packaged: true,
        in_package: Some(path.to_owned()),
        in_stage: Some(path.to_owned()),
        format: "q27".to_owned(),
        size_bytes: 10,
    }
}

#[test]
fn staged_packages_are_checked() {
    let files = vec![
        planned("x.q27", PackageRole::Primary, Some(10)),
        planned("x.tok", PackageRole::Tokenizer, None),
    ];
    assert!(matches!(check_package_file(&files[0], true, 10), Ok(false)));
    assert!(message_of(check_package_file(&files[0], false, 10)).contains("not a regular file"));
    assert!(message_of(check_package_file(&files[0], true, 9)).contains("has 9 bytes; expected 10"));
    let mut digested = planned("x.q27", PackageRole::Primary, None);
    digested.sha256 = Some("aa".to_owned());
    assert!(matches!(check_package_file(&digested, true, 10), Ok(true)));
    assert!(check_package_digest(&digested, "aa").is_ok());
    assert!(matches!(
        check_package_digest(&digested, "bb"),
        Err(ModelLibraryError::DigestMismatch { .. })
    ));
    let members = validate_package_stage(&files, &vec![staged("x.q27"), staged("x.tok")], &Vec::new())
        .ok()
        .expect("complete");
    assert_eq!(members.len(), 1);
    assert!(message_of(validate_package_stage(&files, &Vec::new(), &Vec::new()))
        .contains("did not expose every declared primary member"));
    assert!(check_membership(&texts(&["x.q27"]), &members).is_ok());
    assert!(check_membership(&texts(&["y.q27"]), &members).is_err());
    assert!(message_of(check_membership(&texts(&["../y"]), &members)).contains("unsafe remote filename"));
}

fn looks(receipt: &ModelLibraryReceipt, root: &[&str]) -> Vec<MemberLook> {
    receipt
        .members
        .iter()
        .map(|member| {
            let mut place = texts(root);
            for name in member.path.split('/') {
                place.push(name.to_owned());
            }
            MemberLook::Seen(ObservedMember {
                place,
                is_file: true,
                size_bytes: member.provenance.size_bytes,
                format: Some(member.format.clone()),
            })
        })
        .collect()
}

#[test]
fn downloads_can_be_removed_as_they_were_recorded() {
    let resolved = artifact(Some(100), Some("ab"));
    let members = record_single(&resolved, 100, 7);
    assert_eq!(members[0].path, "dir/model.gguf");
    assert_eq!(members[0].provenance.digest.as_deref(), Some("ab"));
    let id = resolved.acquisition_id();
    let receipt = make_receipt(&id, members);
    assert_eq!(receipt.schema_version, RECEIPT_SCHEMA_VERSION);
    let root = texts(&["models", "x"]);
    let place = texts(&["models", "x", "dir", "model.gguf"]);
    let models = vec![DiscoveredModel {
        id: "model".to_owned(),
        place: place.clone(),
        acquisition_id: Some(id.clone()),
    }];
    let plan = plan_removal(
        "model",
        &id,
        &place,
        &root,
        &receipt,
        &looks(&receipt, &["models", "x"]),
        &models,
        &Vec::new(),
    )
    .ok()
    .expect("removable");
    assert_eq!(plan.acquisition_root(), &root);
    assert_eq!(plan.affected_model_ids, ["model"]);
    let library = texts(&["models"]);
    let staging = texts(&["models", ".staging"]);
    assert!(check_removal(plan.acquisition_root(), &root, &library, &staging, true).is_ok());
    assert!(check_removal(plan.acquisition_root(), &library, &library, &staging, true).is_err());
    assert!(check_removal(plan.acquisition_root(), &root, &library, &staging, false).is_err());

    let mut changed = looks(&receipt, &["models", "x"]);
    if let MemberLook::Seen(look) = &mut changed[0] {
        look.size_bytes = 1;
    }
    let refused = plan_removal(
        "model", &id, &place, &root, &receipt, &changed, &models, &Vec::new(),
    );
    assert!(message_of(refused).contains("no longer matches its receipt"));
    let unseen = vec![MemberLook::Unseen(ModelLibraryError::Io {
        path: "/x".to_owned(),
        source: "denied".to_owned(),
    })];
    let refused = plan_removal(
        "model", &id, &place, &root, &receipt, &unseen, &models, &Vec::new(),
    );
    assert!(matches!(refused, Err(ModelLibraryError::Io { .. })));
    let other = plan_removal(
        "model",
        "another",
        &place,
        &root,
        &receipt,
        &looks(&receipt, &["models", "x"]),
        &models,
        &Vec::new(),
    );
    assert!(matches!(other, Err(ModelLibraryError::NotManaged(id)) if id == "model"));
}

#[test]
fn acquisitions_are_found_above_their_files() {
    let place = texts(&["models", "x", "dir", "model.gguf"]);
    let root = texts(&["models"]);
    let staging = texts(&["models", ".staging"]);
    let found = find_acquisition(
        "model",
        true,
        &place,
        &root,
        &staging,
        &vec![false, false, true, false],
    );
    assert_eq!(found.ok().expect("receipt"), ["models", "x"]);
    let unmanaged = find_acquisition("model", false, &place, &root, &staging, &vec![false, false, true, false]);
    assert!(matches!(unmanaged, Err(ModelLibraryError::NotManaged(_))));
    let nowhere = find_acquisition("model", true, &place, &root, &staging, &vec![false; 4]);
    assert!(nowhere.is_err());
}

#[test]
fn packages_are_recorded_by_member() {
    let mut resolved = artifact(Some(10), None);
    resolved.primary.filename = "x.q27".to_owned();
    let recorded = record_package(&resolved, &vec![staged("x.q27")], 7).ok().expect("recorded");
    assert_eq!(recorded[0].provenance.remote_filename.as_deref(), Some("x.q27"));
    assert!(message_of(record_package(&resolved, &vec![staged("y.q27")], 7)).contains("was not resolved"));
    let mut escaped = staged("x.q27");
    escaped.in_stage = None;
    assert!(message_of(record_package(&resolved, &vec![escaped], 7)).contains("escaped"));
    let origin = remote_provenance(&resolved, &resolved.primary, 10, 7);
    assert_eq!(
        origin.logical_id.as_deref(),
        Some("huggingface:owner/model@abc123:x.q27")
    );
}

#[test]
fn outcomes_of_downloads_are_told() {
    assert_eq!(
        complete_download(&DownloadOutcome::Installed("chat".to_owned())),
        (ModelOperationPhase::Installed, "Model installed as chat".to_owned())
    );
    assert_eq!(
        complete_download(&DownloadOutcome::AlreadyInstalled("chat".to_owned())),
        (ModelOperationPhase::Installed, "Already installed as chat".to_owned())
    );
    assert_eq!(
        complete_download(&DownloadOutcome::Failed(ModelLibraryError::NotFound("chat".to_owned()))),
        (ModelOperationPhase::Failed, "model `chat` was not found".to_owned())
    );
}

#[test]
fn parallel_downloads_are_set() {
    let id = "server.max_parallel_model_downloads";
    let set = |value: SettingValue| {
        let mut settings: Table<SettingValue> = Table::new();
        settings.insert(id.to_owned(), value);
        max_parallel_downloads_from_settings(&settings)
    };
    assert_eq!(max_parallel_downloads_from_settings(&Table::new()), 4);
    assert_eq!(set(SettingValue::UnsignedInteger(9)), 9);
    assert_eq!(set(SettingValue::UnsignedInteger(0)), 1);
    assert_eq!(set(SettingValue::Boolean(true)), 4);
    assert_eq!(setting_definition().id, id);
}

#[test]
fn imports_are_checked() {
    assert!(is_manifest_size(true, 1));
    assert!(!is_manifest_size(true, 0));
    assert!(!is_manifest_size(true, MAX_PACKAGE_MANIFEST_BYTES + 1));
    assert!(!is_manifest_size(false, 1));
    assert!(check_manifest_bound(MAX_PACKAGE_MANIFEST_BYTES, 0).is_ok());
    assert!(check_manifest_bound(MAX_PACKAGE_MANIFEST_BYTES, 1).is_err());
    assert!(check_manifest_bound(u64::MAX, u64::MAX).is_err());
    let gguf = Some("gguf".to_owned());
    assert_eq!(check_source("/m/x.gguf", true, &gguf).ok().expect("format"), "gguf");
    assert_eq!(
        message_of(check_source("/m/x.gguf", false, &gguf)),
        "model artifact is invalid: /m/x.gguf is not a file"
    );
    assert!(message_of(check_source("/m/x.bin", true, &None)).contains("expected a .gguf"));
    assert!(needs_tokenizer("q27", false));
    assert!(!needs_tokenizer("q27", true));
    assert!(!needs_tokenizer("gguf", false));
    assert!(check_vacant("/d", false).is_ok());
    assert!(matches!(check_vacant("/d", true), Err(ModelLibraryError::AlreadyInstalled(path)) if path == "/d"));
    assert!(check_relative("a/b").is_ok());
    assert!(check_relative("../b").is_err());
    assert!(check_copied("a", true, true).is_ok());
    assert!(check_copied("a", false, true).is_err());
    assert!(check_paired("a/x.tok", "a//x.tok").is_ok());
    assert!(check_paired("a/x.tok", "b/x.tok").is_err());
    assert_eq!(safe_basename("/m/x", &Some("x".to_owned())).ok().expect("name"), "x");
    assert!(safe_basename("/m/x", &None).is_err());
    let found = texts(&["/m/a.gguf", "/m/b.gguf"]);
    assert!(matches!(find_source(&found, "/m/b.gguf", &Vec::new()), Ok(1)));
    assert!(message_of(find_source(&found, "/m/c.gguf", &Vec::new())).contains("was not admitted"));
    assert!(message_of(discover_exact(&found, "/m/c.gguf", &texts(&["one", "two"]))).ends_with("one; two"));
}

#[test]
fn local_packages_are_recognised() {
    let plan = ManifestPlan::Valid(vec![
        planned("x.q27", PackageRole::Primary, None),
        planned("x.tok", PackageRole::Tokenizer, None),
    ]);
    assert!(matches!(local_package_root("/p/m.json", &plan, "x.q27"), Ok(true)));
    assert!(matches!(local_package_root("/p/m.json", &plan, "y.q27"), Ok(false)));
    assert!(message_of(local_package_root("/p/m.json", &plan, "x.tok")).contains("non-primary tokenizer"));
    let files = vec![planned("x.q27", PackageRole::Primary, None)];
    assert!(check_selected(&files, &Some("x.q27".to_owned())).is_ok());
    assert!(check_selected(&files, &Some("y.q27".to_owned())).is_err());
    assert!(message_of(check_selected(&files, &None)).contains("outside its package root"));
    let look = |path: Option<&str>, is_file: bool, fault: Option<&str>| TokenizerLook {
        path: path.map(|text| text.to_owned()),
        warnings: Vec::new(),
        is_file: Ok(is_file),
        fault: fault.map(|text| text.to_owned()),
    };
    assert_eq!(
        validate_raw_q27_tokenizer("x.q27", &look(Some("x.tok"), true, None)).ok().expect("tokenizer"),
        "x.tok"
    );
    assert!(message_of(validate_raw_q27_tokenizer("x.q27", &look(None, true, None)))
        .contains("is missing its required tokenizer companion"));
    assert!(message_of(validate_raw_q27_tokenizer("x.q27", &look(Some("x.tok"), false, None)))
        .contains("is not a regular file"));
    assert!(message_of(validate_raw_q27_tokenizer("x.q27", &look(Some("x.tok"), true, Some("bad"))))
        .ends_with("is invalid: bad"));
    let unseen = TokenizerLook {
        path: Some("x.tok".to_owned()),
        warnings: vec!["unused".to_owned()],
        is_file: Err("permission denied".to_owned()),
        fault: Some("bad".to_owned()),
    };
    assert!(matches!(
        validate_raw_q27_tokenizer("x.q27", &unseen),
        Err(ModelLibraryError::Io { path, source }) if path == "x.tok" && source == "permission denied"
    ));
}

#[test]
fn imports_are_recorded_with_their_source() {
    let members = record_imported_file("local-import:1", "x.gguf", "gguf", "/m/x.gguf", 5, 7);
    assert_eq!(members[0].provenance.source.as_deref(), Some("/m/x.gguf"));
    assert_eq!(members[0].provenance.provider, "local_import");
    let members = record_imported_package("local-import:1", "/p", &vec![staged("x.q27")], 7)
        .ok()
        .expect("recorded");
    assert_eq!(members[0].provenance.source.as_deref(), Some("/p/x.q27"));
    assert_eq!(
        members[0].provenance.logical_id.as_deref(),
        Some("local-import:1:x.q27")
    );
    let mut escaped = staged("x.q27");
    escaped.in_stage = None;
    assert!(record_imported_package("local-import:1", "/p", &vec![escaped], 7).is_err());
}
