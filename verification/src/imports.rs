//! Artifacts that are brought into the library from elsewhere on the machine.
use vstd::prelude::*;
use vstd::string::*;

use crate::acquisition::{StagedArtifact, StagedView};
use crate::duplicate::{lemma_views_push, optional, views};
use crate::hub::{package_role_name, ManifestPlan, ManifestPlanView, PackageRole, PlannedFile, PlannedView};
use crate::paths::{is_safe, parts, safe_relative, same_path, slash_path, slashed};
use crate::receipts::{
    MemberView, ModelArtifactProvenance, ModelLibraryReceiptMember, OriginView, ReceiptView,
    RECEIPT_SCHEMA_VERSION,
};
use crate::references::{LibraryErrorView, ModelLibraryError};
use crate::text::{cat2, cat3, cat4, cat5, ends, ends_with, join, joined, same};
use crate::updates::referenced;

verus! {

/// How long the manifest of a package may be.
pub const MAX_PACKAGE_MANIFEST_BYTES: u64 = 16_777_216;

/// Whether a file can be the manifest of a package.
pub fn is_manifest_size(is_file: bool, size: u64) -> (result: bool)
    ensures
        result == (is_file && 0 < size <= MAX_PACKAGE_MANIFEST_BYTES),
{
    is_file && size > 0 && size <= MAX_PACKAGE_MANIFEST_BYTES
}

/// Whether a remote manifest may go on: what it is said to have or what is there of it with what comes
/// must not be too much. A sum that cannot be counted is too much.
pub fn check_manifest_bound(length: u64, more: u64) -> (result: Result<(), ModelLibraryError>)
    ensures
        match result {
            Ok(_) => length + more <= MAX_PACKAGE_MANIFEST_BYTES,
            Err(error) => length + more > MAX_PACKAGE_MANIFEST_BYTES && error@
                == LibraryErrorView::InvalidCatalog(
                "Norted package manifest exceeds the bounded manifest size"@,
            ),
        },
{
    if length <= MAX_PACKAGE_MANIFEST_BYTES && more <= MAX_PACKAGE_MANIFEST_BYTES - length {
        Ok(())
    } else {
        Err(
            ModelLibraryError::InvalidCatalog(
                "Norted package manifest exceeds the bounded manifest size".to_owned(),
            ),
        )
    }
}

/// The format of a file that is to be imported.
pub fn check_source(path: &str, is_file: bool, format: &Option<String>) -> (result: Result<
    String,
    ModelLibraryError,
>)
    ensures
        match result {
            Ok(found) => is_file && optional(*format) == Some(found@),
            Err(error) => error@ == LibraryErrorView::InvalidArtifact(
                if !is_file {
                    path@ + " is not a file"@
                } else {
                    "expected a .gguf, .q27, or .ninfer artifact"@
                },
            ) && (!is_file || format is None),
        },
{
    if !is_file {
        return Err(ModelLibraryError::InvalidArtifact(cat2(path, " is not a file")));
    }
    match format {
        Some(format) => Ok(format.clone()),
        None => Err(
            ModelLibraryError::InvalidArtifact(
                "expected a .gguf, .q27, or .ninfer artifact".to_owned(),
            ),
        ),
    }
}

/// The first file of a plan at a path.
pub open spec fn planned_by_path(files: Seq<PlannedView>, path: Seq<char>) -> Option<PlannedView>
    decreases files.len(),
{
    if files.len() == 0 {
        None
    } else if parts(files[0].path) == parts(path) {
        Some(files[0])
    } else {
        planned_by_path(files.skip(1), path)
    }
}

fn find_by_path<'a>(files: &'a Vec<PlannedFile>, path: &str) -> (result: Option<&'a PlannedFile>)
    ensures
        referenced(result) == planned_by_path(views(files@), path@),
{
    let ghost all = views(files@);
    let mut i: usize = 0;
    proof {
        assert(all.skip(0) =~= all);
    }
    while i < files.len()
        invariant
            i <= files.len(),
            all == views(files@),
            planned_by_path(all, path@) == planned_by_path(all.skip(i as int), path@),
        decreases files.len() - i,
    {
        proof {
            assert(all.skip(i as int)[0] == files@[i as int]@);
            assert(all.skip(i as int).skip(1) =~= all.skip(i + 1));
        }
        if same_path(files[i].path.as_str(), path) {
            return Some(&files[i]);
        }
        i += 1;
    }
    None
}

/// Whether a manifest in a directory above a file makes that directory the root of the file's package.
pub open spec fn local_package(manifest: Seq<char>, plan: ManifestPlanView, selected: Seq<char>) -> Result<
    bool,
    LibraryErrorView,
> {
    match plan {
        ManifestPlanView::Invalid { error, claims_selected } => if claims_selected {
            Err(
                LibraryErrorView::InvalidArtifact(
                    "Norted package manifest "@ + manifest
                        + " claims the selected artifact but is invalid: "@ + error,
                ),
            )
        } else {
            Ok(false)
        },
        ManifestPlanView::Valid(files) => match planned_by_path(files, selected) {
            None => Ok(false),
            Some(file) => if file.role == PackageRole::Primary {
                Ok(true)
            } else {
                Err(
                    LibraryErrorView::InvalidArtifact(
                        "Norted package manifest "@ + manifest
                            + " declares the selected artifact as a non-primary "@
                            + file.role.name()
                            + " member; select a primary model artifact instead"@,
                    ),
                )
            },
        },
    }
}

/// Looks at one manifest on the way up from a file.
pub fn local_package_root(manifest: &str, plan: &ManifestPlan, selected: &str) -> (result: Result<
    bool,
    ModelLibraryError,
>)
    ensures
        match (result, local_package(manifest@, plan@, selected@)) {
            (Ok(found), Ok(expected)) => found == expected,
            (Err(error), Err(expected)) => error@ == expected,
            _ => false,
        },
{
    match plan {
        ManifestPlan::Invalid { error, claims_selected } => {
            if *claims_selected {
                Err(
                    ModelLibraryError::InvalidArtifact(
                        cat4(
                            "Norted package manifest ",
                            manifest,
                            " claims the selected artifact but is invalid: ",
                            error.as_str(),
                        ),
                    ),
                )
            } else {
                Ok(false)
            }
        },
        ManifestPlan::Valid(files) => match find_by_path(files, selected) {
            None => Ok(false),
            Some(file) => {
                if file.role == PackageRole::Primary {
                    Ok(true)
                } else {
                    Err(
                        ModelLibraryError::InvalidArtifact(
                            cat5(
                                "Norted package manifest ",
                                manifest,
                                " declares the selected artifact as a non-primary ",
                                package_role_name(file.role),
                                " member; select a primary model artifact instead",
                            ),
                        ),
                    )
                }
            },
        },
    }
}

/// The first place of a path in a list.
pub open spec fn path_at(paths: Seq<Seq<char>>, path: Seq<char>) -> Option<int>
    decreases paths.len(),
{
    if paths.len() == 0 {
        None
    } else {
        match path_at(paths.drop_last(), path) {
            Some(at) => Some(at),
            None => if parts(paths.last()) == parts(path) {
                Some(paths.len() - 1)
            } else {
                None
            },
        }
    }
}

fn find_path_at(paths: &Vec<String>, path: &str) -> (result: Option<usize>)
    ensures
        match (result, path_at(views(paths@), path@)) {
            (Some(i), Some(at)) => i == at && i < paths@.len(),
            (None, None) => true,
            _ => false,
        },
{
    let ghost all = views(paths@);
    let mut found: Option<usize> = None;
    let mut i: usize = 0;
    while i < paths.len()
        invariant
            i <= paths.len(),
            all == views(paths@),
            match (found, path_at(all.take(i as int), path@)) {
                (Some(b), Some(at)) => b == at && b < i,
                (None, None) => true,
                _ => false,
            },
        decreases paths.len() - i,
    {
        proof {
            assert(all.take(i + 1).drop_last() =~= all.take(i as int));
            assert(all.take(i + 1).last() == paths@[i as int]@);
        }
        if found.is_none() && same_path(paths[i].as_str(), path) {
            found = Some(i);
        }
        i += 1;
    }
    proof {
        assert(all.take(all.len() as int) =~= all);
    }
    found
}

/// The place of a file among the artifacts that discovery admitted. Where it is not among them, what
/// discovery warned of is the reason.
pub fn find_source(discovered: &Vec<String>, path: &str, warnings: &Vec<String>) -> (result: Result<
    usize,
    ModelLibraryError,
>)
    ensures
        match (result, path_at(views(discovered@), path@)) {
            (Ok(i), Some(at)) => i == at,
            (Err(error), None) => error@ == LibraryErrorView::InvalidArtifact(
                if warnings@.len() == 0 {
                    "artifact was not admitted by local model discovery"@
                } else {
                    joined(views(warnings@), "; "@)
                },
            ),
            _ => false,
        },
{
    match find_path_at(discovered, path) {
        Some(i) => Ok(i),
        None => {
            let text = if warnings.len() == 0 {
                "artifact was not admitted by local model discovery".to_owned()
            } else {
                join(warnings, "; ")
            };
            Err(ModelLibraryError::InvalidArtifact(text))
        },
    }
}

/// The place of an installed file among the artifacts that discovery admitted.
pub fn discover_exact(discovered: &Vec<String>, path: &str, warnings: &Vec<String>) -> (result: Result<
    usize,
    ModelLibraryError,
>)
    ensures
        match (result, path_at(views(discovered@), path@)) {
            (Ok(i), Some(at)) => i == at,
            (Err(error), None) => error@ == LibraryErrorView::InvalidArtifact(
                joined(views(warnings@), "; "@),
            ),
            _ => false,
        },
{
    match find_path_at(discovered, path) {
        Some(i) => Ok(i),
        None => Err(ModelLibraryError::InvalidArtifact(join(warnings, "; "))),
    }
}

/// Whether an artifact needs a tokenizer beside it: one of q27 outside of a package.
pub fn needs_tokenizer(format: &str, packaged: bool) -> (result: bool)
    ensures
        result == (format@ == "q27"@ && !packaged),
{
    same(format, "q27") && !packaged
}

/// Whether what is to be imported may be put where it is kept.
pub fn check_vacant(destination: &str, exists_already: bool) -> (result: Result<
    (),
    ModelLibraryError,
>)
    ensures
        match result {
            Ok(_) => !exists_already,
            Err(error) => exists_already && error@ == LibraryErrorView::AlreadyInstalled(
                destination@,
            ),
        },
{
    if exists_already {
        Err(ModelLibraryError::AlreadyInstalled(destination.to_owned()))
    } else {
        Ok(())
    }
}

/// The path of the file that was asked for below the root of its package, if it lies there and is one
/// of its primary files.
pub fn check_selected(files: &Vec<PlannedFile>, selected: &Option<String>) -> (result: Result<
    String,
    ModelLibraryError,
>)
    ensures
        match (result, optional(*selected)) {
            (Err(error), None) => error@ == LibraryErrorView::InvalidArtifact(
                "package primary is outside its package root"@,
            ),
            (Ok(path), Some(expected)) => path@ == expected && is_primary(
                views(files@),
                expected,
            ),
            (Err(error), Some(expected)) => !is_primary(views(files@), expected) && error@
                == LibraryErrorView::InvalidArtifact(
                "selected artifact is not a primary member of its Norted package"@,
            ),
            (Ok(_), None) => false,
        },
{
    let path = match selected {
        Some(path) => path,
        None => {
            return Err(
                ModelLibraryError::InvalidArtifact(
                    "package primary is outside its package root".to_owned(),
                ),
            );
        },
    };
    if has_primary(files, path.as_str()) {
        Ok(path.clone())
    } else {
        Err(
            ModelLibraryError::InvalidArtifact(
                "selected artifact is not a primary member of its Norted package".to_owned(),
            ),
        )
    }
}

/// Whether a path is that of a primary file of a plan.
pub open spec fn is_primary(files: Seq<PlannedView>, path: Seq<char>) -> bool {
    exists|i: int|
        0 <= i < files.len() && (#[trigger] files[i]).role == PackageRole::Primary && parts(
            files[i].path,
        ) == parts(path)
}

fn has_primary(files: &Vec<PlannedFile>, path: &str) -> (result: bool)
    ensures
        result == is_primary(views(files@), path@),
{
    let ghost all = views(files@);
    let mut i: usize = 0;
    while i < files.len()
        invariant
            i <= files.len(),
            all == views(files@),
            forall|k: int|
                0 <= k < i ==> !((#[trigger] all[k]).role == PackageRole::Primary && parts(
                    all[k].path,
                ) == parts(path@)),
        decreases files.len() - i,
    {
        proof {
            assert(all[i as int] == files@[i as int]@);
        }
        if files[i].role == PackageRole::Primary && same_path(files[i].path.as_str(), path) {
            return true;
        }
        i += 1;
    }
    false
}

/// Whether a file of a package may be looked for at all.
pub fn check_relative(path: &str) -> (result: Result<(), ModelLibraryError>)
    ensures
        match result {
            Ok(_) => is_safe(path@),
            Err(error) => !is_safe(path@) && error@ == LibraryErrorView::InvalidArtifact(
                "unsafe package-relative path "@ + path@,
            ),
        },
{
    if safe_relative(path) {
        Ok(())
    } else {
        Err(ModelLibraryError::InvalidArtifact(cat2("unsafe package-relative path ", path)))
    }
}

/// Whether a file of a package may be copied: it is a file inside the package once links are followed.
pub fn check_copied(path: &str, is_inside: bool, is_file: bool) -> (result: Result<
    (),
    ModelLibraryError,
>)
    ensures
        match result {
            Ok(_) => is_inside && is_file,
            Err(error) => !(is_inside && is_file) && error@ == LibraryErrorView::InvalidArtifact(
                "package file "@ + path@ + " escapes its source root or is not regular"@,
            ),
        },
{
    if is_inside && is_file {
        Ok(())
    } else {
        Err(
            ModelLibraryError::InvalidArtifact(
                cat3("package file ", path, " escapes its source root or is not regular"),
            ),
        )
    }
}

/// What is known of the tokenizer beside a q27 artifact: which it is, whether it is a file or why that
/// cannot be told, and what is wrong with it.
#[derive(Debug)]
pub struct TokenizerLook {
    pub path: Option<String>,
    pub warnings: Vec<String>,
    pub is_file: Result<bool, String>,
    pub fault: Option<String>,
}

/// The tokenizer beside a q27 artifact, or why there is none that can be used.
pub open spec fn raw_tokenizer(primary: Seq<char>, look: TokenizerLook) -> Result<
    Seq<char>,
    LibraryErrorView,
> {
    match (look.path, look.is_file) {
        (None, _) => Err(
            LibraryErrorView::InvalidArtifact(
                if look.warnings@.len() > 0 {
                    look.warnings@[0]@
                } else {
                    "q27 artifact "@ + primary + " is missing its required tokenizer companion"@
                },
            ),
        ),
        (Some(path), Err(source)) => Err(LibraryErrorView::Io { path: path@, source: source@ }),
        (Some(path), Ok(is_file)) => if !is_file {
            Err(
                LibraryErrorView::InvalidArtifact(
                    "q27 tokenizer companion "@ + path@ + " is not a regular file"@,
                ),
            )
        } else {
            match look.fault {
                Some(fault) => Err(
                    LibraryErrorView::InvalidArtifact(
                        "q27 tokenizer companion "@ + path@ + " is invalid: "@ + fault@,
                    ),
                ),
                None => Ok(path@),
            }
        },
    }
}

pub fn validate_raw_q27_tokenizer(primary: &str, look: &TokenizerLook) -> (result: Result<
    String,
    ModelLibraryError,
>)
    ensures
        match (result, raw_tokenizer(primary@, *look)) {
            (Ok(path), Ok(expected)) => path@ == expected,
            (Err(error), Err(expected)) => error@ == expected,
            _ => false,
        },
{
    match &look.path {
        None => Err(
            ModelLibraryError::InvalidArtifact(
                if look.warnings.len() > 0 {
                    look.warnings[0].clone()
                } else {
                    cat3(
                        "q27 artifact ",
                        primary,
                        " is missing its required tokenizer companion",
                    )
                },
            ),
        ),
        Some(path) => {
            let is_file: bool = match &look.is_file {
                Ok(is_file) => *is_file,
                Err(source) => {
                    return Err(
                        ModelLibraryError::Io { path: path.clone(), source: source.clone() },
                    );
                },
            };
            if !is_file {
                return Err(
                    ModelLibraryError::InvalidArtifact(
                        cat3(
                            "q27 tokenizer companion ",
                            path.as_str(),
                            " is not a regular file",
                        ),
                    ),
                );
            }
            match &look.fault {
                Some(fault) => Err(
                    ModelLibraryError::InvalidArtifact(
                        cat4(
                            "q27 tokenizer companion ",
                            path.as_str(),
                            " is invalid: ",
                            fault.as_str(),
                        ),
                    ),
                ),
                None => Ok(path.clone()),
            }
        },
    }
}

/// The tokenizer that was copied must be the one that is found beside the copy.
pub fn check_paired(found: &str, copied: &str) -> (result: Result<(), ModelLibraryError>)
    ensures
        match result {
            Ok(_) => parts(found@) == parts(copied@),
            Err(error) => parts(found@) != parts(copied@) && error@
                == LibraryErrorView::InvalidArtifact(
                "staged q27 tokenizer companion no longer matches the selected tokenizer"@,
            ),
        },
{
    if same_path(found, copied) {
        Ok(())
    } else {
        Err(
            ModelLibraryError::InvalidArtifact(
                "staged q27 tokenizer companion no longer matches the selected tokenizer".to_owned(),
            ),
        )
    }
}

/// The name of a file, if it is a text.
pub fn safe_basename(path: &str, name: &Option<String>) -> (result: Result<String, ModelLibraryError>)
    ensures
        match (result, optional(*name)) {
            (Ok(found), Some(expected)) => found@ == expected,
            (Err(error), None) => error@ == LibraryErrorView::InvalidArtifact(
                "invalid artifact filename "@ + path@,
            ),
            _ => false,
        },
{
    match name {
        Some(name) => Ok(name.clone()),
        None => Err(
            ModelLibraryError::InvalidArtifact(cat2("invalid artifact filename ", path)),
        ),
    }
}

/// A relative path behind a directory.
pub open spec fn path_below(directory: Seq<char>, path: Seq<char>) -> Seq<char> {
    if ends(directory, "/"@) {
        directory + path
    } else {
        directory + "/"@ + path
    }
}

/// What is recorded of an imported file.
pub open spec fn import_origin(
    acquisition_id: Seq<char>,
    logical_id: Seq<char>,
    source: Seq<char>,
    size_bytes: u64,
    now: i64,
) -> OriginView {
    OriginView {
        acquisition_id,
        provider: "local_import"@,
        repository: None,
        logical_id: Some(logical_id),
        source: Some(source),
        revision: None,
        remote_filename: None,
        acquired_at_unix: now,
        size_bytes,
        digest: None,
    }
}

fn import_provenance(
    acquisition_id: &str,
    logical_id: String,
    source: String,
    size_bytes: u64,
    now: i64,
) -> (result: ModelArtifactProvenance)
    ensures
        result@ == import_origin(acquisition_id@, logical_id@, source@, size_bytes, now),
{
    ModelArtifactProvenance {
        acquisition_id: acquisition_id.to_owned(),
        provider: "local_import".to_owned(),
        repository: None,
        logical_id: Some(logical_id),
        source: Some(source),
        revision: None,
        remote_filename: None,
        acquired_at_unix: now,
        size_bytes,
        digest: None,
    }
}

/// What is recorded of a member of an imported package.
pub open spec fn imported_member(
    acquisition_id: Seq<char>,
    package_root: Seq<char>,
    artifact: StagedView,
    now: i64,
) -> MemberView {
    let path = artifact.in_stage->0;
    MemberView {
        path,
        format: artifact.format,
        provenance: import_origin(
            acquisition_id,
            acquisition_id + ":"@ + slashed(path),
            path_below(package_root, path),
            artifact.size_bytes,
            now,
        ),
    }
}

/// The members of an imported package, as far as they lie in the stage.
pub open spec fn imported_members(
    acquisition_id: Seq<char>,
    package_root: Seq<char>,
    installed: Seq<StagedView>,
    now: i64,
) -> Seq<MemberView> {
    Seq::new(
        installed.len(),
        |i: int| imported_member(acquisition_id, package_root, installed[i], now),
    )
}

/// Records an imported package. A member that does not lie in the stage is an error.
pub fn record_imported_package(
    acquisition_id: &str,
    package_root: &str,
    installed: &Vec<StagedArtifact>,
    now: i64,
) -> (result: Result<Vec<ModelLibraryReceiptMember>, ModelLibraryError>)
    ensures
        match result {
            Ok(members) => views(members@) == imported_members(
                acquisition_id@,
                package_root@,
                views(installed@),
                now,
            ) && forall|i: int|
                0 <= i < installed@.len() ==> (#[trigger] views(installed@)[i]).in_stage is Some,
            Err(error) => error@ == LibraryErrorView::InvalidArtifact(
                "staged package member escaped its acquisition root"@,
            ) && exists|i: int|
                0 <= i < installed@.len() && (#[trigger] views(installed@)[i]).in_stage is None,
        },
{
    let ghost all = views(installed@);
    let ghost expected = imported_members(acquisition_id@, package_root@, all, now);
    let mut members: Vec<ModelLibraryReceiptMember> = Vec::new();
    let mut i: usize = 0;
    proof {
        assert(views(members@) =~= expected.take(0));
    }
    while i < installed.len()
        invariant
            i <= installed.len(),
            all == views(installed@),
            expected == imported_members(acquisition_id@, package_root@, all, now),
            views(members@) == expected.take(i as int),
            forall|k: int| 0 <= k < i ==> (#[trigger] all[k]).in_stage is Some,
        decreases installed.len() - i,
    {
        proof {
            assert(all[i as int] == installed@[i as int]@);
        }
        let artifact = &installed[i];
        match &artifact.in_stage {
            None => {
                assert(all[i as int].in_stage is None);
                return Err(
                    ModelLibraryError::InvalidArtifact(
                        "staged package member escaped its acquisition root".to_owned(),
                    ),
                );
            },
            Some(path) => {
                let source = if ends_with(package_root, "/") {
                    cat2(package_root, path.as_str())
                } else {
                    cat3(package_root, "/", path.as_str())
                };
                let logical_id = cat3(acquisition_id, ":", slash_path(path.as_str()).as_str());
                let member = ModelLibraryReceiptMember {
                    path: path.clone(),
                    format: artifact.format.clone(),
                    provenance: import_provenance(
                        acquisition_id,
                        logical_id,
                        source,
                        artifact.size_bytes,
                        now,
                    ),
                };
                proof {
                    lemma_views_push(members@, member);
                    assert(member@ == expected[i as int]);
                    assert(expected.take(i + 1) =~= expected.take(i as int).push(
                        expected[i as int],
                    ));
                }
                members.push(member);
            },
        }
        i += 1;
    }
    proof {
        assert(expected.take(expected.len() as int) =~= expected);
    }
    Ok(members)
}

/// Records an imported file that belongs to no package.
pub fn record_imported_file(
    acquisition_id: &str,
    filename: &str,
    format: &str,
    source: &str,
    size_bytes: u64,
    now: i64,
) -> (result: Vec<ModelLibraryReceiptMember>)
    ensures
        views(result@) == seq![
            MemberView {
                path: filename@,
                format: format@,
                provenance: import_origin(
                    acquisition_id@,
                    acquisition_id@,
                    source@,
                    size_bytes,
                    now,
                ),
            },
        ],
{
    let member = ModelLibraryReceiptMember {
        path: filename.to_owned(),
        format: format.to_owned(),
        provenance: import_provenance(
            acquisition_id,
            acquisition_id.to_owned(),
            source.to_owned(),
            size_bytes,
            now,
        ),
    };
    let ghost view = member@;
    let mut result: Vec<ModelLibraryReceiptMember> = Vec::new();
    proof {
        lemma_views_push(result@, member);
    }
    result.push(member);
    proof {
        assert(views(result@) =~= seq![view]);
    }
    result
}

/// What an import records of a package whose members have safe paths, no two of them the same, is a
/// receipt by which it can be removed again.
pub proof fn law_imports_can_be_removed(
    acquisition_id: Seq<char>,
    package_root: Seq<char>,
    installed: Seq<StagedView>,
    now: i64,
)
    requires
        installed.len() > 0,
        forall|i: int| 0 <= i < installed.len() ==> is_safe((#[trigger] installed[i]).in_stage->0),
        forall|i: int, j: int|
            0 <= i < j < installed.len() ==> parts((#[trigger] installed[i]).in_stage->0) != parts(
                (#[trigger] installed[j]).in_stage->0,
            ),
    ensures
        (ReceiptView {
            schema_version: RECEIPT_SCHEMA_VERSION,
            acquisition_id,
            members: imported_members(acquisition_id, package_root, installed, now),
        }).sound(),
{
    let members = imported_members(acquisition_id, package_root, installed, now);
    let receipt = ReceiptView {
        schema_version: RECEIPT_SCHEMA_VERSION,
        acquisition_id,
        members,
    };
    assert forall|i: int| 0 <= i < members.len() implies #[trigger] receipt.sound_at(i) by {
        assert(members[i].path == installed[i].in_stage->0);
        assert forall|j: int| 0 <= j < i implies parts((#[trigger] members[j]).path) != parts(
            members[i].path,
        ) by {
            assert(members[j].path == installed[j].in_stage->0);
        }
    }
}

/// A manifest above a file makes its directory the root of a package exactly where the file is a primary
/// one of it; a file that it calls something else, and a broken manifest that claims the file, are
/// errors.
pub proof fn law_manifests_claim_their_primary_files(
    manifest: Seq<char>,
    files: Seq<PlannedView>,
    selected: Seq<char>,
    error: Seq<char>,
)
    ensures
        ({
            let answer = local_package(manifest, ManifestPlanView::Valid(files), selected);
            let planned = planned_by_path(files, selected);
            &&& answer == Ok::<bool, LibraryErrorView>(true) <==> planned is Some && planned->0.role
                == PackageRole::Primary
            &&& answer == Ok::<bool, LibraryErrorView>(false) <==> planned is None
            &&& local_package(
                manifest,
                ManifestPlanView::Invalid { error, claims_selected: true },
                selected,
            ) is Err
            &&& local_package(
                manifest,
                ManifestPlanView::Invalid { error, claims_selected: false },
                selected,
            ) == Ok::<bool, LibraryErrorView>(false)
        }),
{
}

/// The file of a plan at a path is the first that is there.
pub proof fn law_planned_files_are_found_by_path(files: Seq<PlannedView>, path: Seq<char>)
    ensures
        match planned_by_path(files, path) {
            Some(file) => parts(file.path) == parts(path) && files.contains(file),
            None => forall|i: int|
                0 <= i < files.len() ==> parts((#[trigger] files[i]).path) != parts(path),
        },
        files.len() > 0 && parts(files[0].path) == parts(path) ==> planned_by_path(files, path)
            == Some(files[0]),
    decreases files.len(),
{
    if files.len() > 0 {
        if parts(files[0].path) != parts(path) {
            let rest = files.skip(1);
            law_planned_files_are_found_by_path(rest, path);
            if let Some(file) = planned_by_path(rest, path) {
                assert(files[rest.index_of(file) + 1] == file);
            } else {
                assert forall|i: int| 0 <= i < files.len() implies parts((#[trigger] files[i]).path)
                    != parts(path) by {
                    if i > 0 {
                        assert(rest[i - 1] == files[i]);
                    }
                }
            }
        } else {
            assert(files.contains(files[0]));
        }
    }
}

/// The place of a path in a list is the first that has it.
pub proof fn law_paths_are_found_first(paths: Seq<Seq<char>>, path: Seq<char>)
    ensures
        match path_at(paths, path) {
            Some(at) => 0 <= at < paths.len() && parts(paths[at]) == parts(path) && forall|i: int|
                0 <= i < at ==> parts(#[trigger] paths[i]) != parts(path),
            None => forall|i: int|
                0 <= i < paths.len() ==> parts(#[trigger] paths[i]) != parts(path),
        },
    decreases paths.len(),
{
    if paths.len() > 0 {
        let rest = paths.drop_last();
        law_paths_are_found_first(rest, path);
        assert forall|i: int| 0 <= i < rest.len() && parts(rest[i]) != parts(path) implies parts(
            #[trigger] paths[i],
        ) != parts(path) by {
            assert(rest[i] == paths[i]);
        }
    }
}

/// A tokenizer is taken only where there is one, it is a file, and nothing is wrong with it.
pub proof fn law_tokenizers_must_be_sound(primary: Seq<char>, look: TokenizerLook)
    ensures
        raw_tokenizer(primary, look) is Ok <==> look.path is Some && look.is_file is Ok
            && look.is_file->Ok_0 && look.fault is None,
        raw_tokenizer(primary, look) matches Ok(path) ==> path == look.path->0@,
        look.path is None && look.warnings@.len() > 0 ==> raw_tokenizer(primary, look) == Err::<
            Seq<char>,
            LibraryErrorView,
        >(LibraryErrorView::InvalidArtifact(look.warnings@[0]@)),
        look.path is Some && look.is_file is Err ==> raw_tokenizer(primary, look) == Err::<
            Seq<char>,
            LibraryErrorView,
        >(LibraryErrorView::Io { path: look.path->0@, source: look.is_file->Err_0@ }),
{
}

/// Of an imported file is recorded that it was imported, from where, under which name, with which size and
/// when, and nothing of a repository.
pub proof fn law_imports_tell_of_their_source(
    acquisition_id: Seq<char>,
    package_root: Seq<char>,
    installed: Seq<StagedView>,
    now: i64,
    i: int,
)
    requires
        0 <= i < installed.len(),
    ensures
        imported_members(acquisition_id, package_root, installed, now).len() == installed.len(),
        ({
            let member = imported_members(acquisition_id, package_root, installed, now)[i];
            let path = installed[i].in_stage->0;
            &&& member.path == path
            &&& member.format == installed[i].format
            &&& member.provenance.provider == "local_import"@
            &&& member.provenance.acquisition_id == acquisition_id
            &&& member.provenance.logical_id == Some(acquisition_id + ":"@ + slashed(path))
            &&& member.provenance.size_bytes == installed[i].size_bytes
            &&& member.provenance.acquired_at_unix == now
            &&& member.provenance.repository is None && member.provenance.revision is None
            &&& member.provenance.remote_filename is None && member.provenance.digest is None
            &&& !ends(package_root, "/"@) ==> member.provenance.source == Some(
                package_root + "/"@ + path,
            )
            &&& ends(package_root, "/"@) ==> member.provenance.source == Some(package_root + path)
        }),
{
}

} // verus!
