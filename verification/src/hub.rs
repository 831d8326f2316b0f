//! What the hub publishes: catalogs of repositories, and the files that an artifact is made of.
use vstd::prelude::*;
use vstd::string::*;

use crate::duplicate::{duplicate_option, lemma_views_push, optional, views};
use crate::paths::{
    names, parent, part_names, parts, path_parts, same_part, same_remote_directory, PartView,
    PathPart,
};
use crate::references::{
    append_texts, file_address, file_is_reachable, file_segments, hub_address, reachable,
    write_reference, written_reference, HfReference, LibraryErrorView, ModelLibraryError,
    ReferenceView,
};
use crate::text::{
    ascii_lower, cat3, cat5, cat6, ends, ends_with, join, joined, same, same_ignoring_case,
    starts_with, to_ascii_lower, begins,
};
use crate::updates::referenced;

verus! {

/// What is known of a large file.
#[derive(Debug)]
pub struct HfLfs {
    pub sha256: Option<String>,
    pub size: Option<u64>,
}

/// A file of a repository.
#[derive(Debug)]
pub struct HfSibling {
    pub rfilename: String,
    pub size: Option<u64>,
    pub lfs: Option<HfLfs>,
}

#[verifier::ext_equal]
pub struct SiblingView {
    pub rfilename: Seq<char>,
    pub size: Option<u64>,
    pub lfs: Option<(Option<Seq<char>>, Option<u64>)>,
}

impl View for HfSibling {
    type V = SiblingView;

    open spec fn view(&self) -> SiblingView {
        SiblingView {
            rfilename: self.rfilename@,
            size: self.size,
            lfs: match self.lfs {
                Some(lfs) => Some((optional(lfs.sha256), lfs.size)),
                None => None,
            },
        }
    }
}

impl SiblingView {
    /// The size: that of the large file, where it is known.
    pub open spec fn file_size(self) -> Option<u64> {
        match self.lfs {
            Some((_, Some(size))) => Some(size),
            _ => self.size,
        }
    }

    pub open spec fn digest(self) -> Option<Seq<char>> {
        match self.lfs {
            Some((digest, _)) => digest,
            None => None,
        }
    }
}

impl HfSibling {
    pub fn size(&self) -> (result: Option<u64>)
        ensures
            result == self@.file_size(),
    {
        match &self.lfs {
            Some(lfs) => match lfs.size {
                Some(size) => Some(size),
                None => self.size,
            },
            None => self.size,
        }
    }

    pub fn sha256(&self) -> (result: Option<String>)
        ensures
            optional(result) == self@.digest(),
    {
        match &self.lfs {
            Some(lfs) => duplicate_option(&lfs.sha256),
            None => None,
        }
    }

    pub fn resolved(&self, repository: &str, revision: &str) -> (result: Result<
        ResolvedFile,
        ModelLibraryError,
    >)
        requires
            reachable(file_segments(repository@, revision@, self@.rfilename)),
        ensures
            match (result, resolved_file(self@, repository@, revision@)) {
                (Ok(file), Ok(expected)) => file@ == expected,
                (Err(error), Err(expected)) => error@ == expected,
                _ => false,
            },
    {
        match file_address(repository, revision, self.rfilename.as_str()) {
            Err(error) => Err(error),
            Ok(url) => Ok(
                ResolvedFile {
                    filename: self.rfilename.clone(),
                    url,
                    size_bytes: self.size(),
                    sha256: self.sha256(),
                },
            ),
        }
    }
}

/// What the hub knows of a repository.
#[derive(Debug)]
pub struct HfRepository {
    pub id: String,
    pub sha: Option<String>,
    pub siblings: Vec<HfSibling>,
}

/// A file to download.
#[derive(Debug)]
pub struct ResolvedFile {
    pub filename: String,
    pub url: String,
    pub size_bytes: Option<u64>,
    pub sha256: Option<String>,
}

#[verifier::ext_equal]
pub struct ResolvedFileView {
    pub filename: Seq<char>,
    pub url: Seq<char>,
    pub size_bytes: Option<u64>,
    pub sha256: Option<Seq<char>>,
}

impl View for ResolvedFile {
    type V = ResolvedFileView;

    open spec fn view(&self) -> ResolvedFileView {
        ResolvedFileView {
            filename: self.filename@,
            url: self.url@,
            size_bytes: self.size_bytes,
            sha256: optional(self.sha256),
        }
    }
}

/// A file of a repository as a file to download.
pub open spec fn resolved_file(
    sibling: SiblingView,
    repository: Seq<char>,
    revision: Seq<char>,
) -> Result<ResolvedFileView, LibraryErrorView> {
    match hub_address(file_segments(repository, revision, sibling.rfilename)) {
        Err(error) => Err(error),
        Ok(url) => Ok(
            ResolvedFileView {
                filename: sibling.rfilename,
                url,
                size_bytes: sibling.file_size(),
                sha256: sibling.digest(),
            },
        ),
    }
}

/// Whether the address of each file of a repository has no more bytes than can be counted.
pub open spec fn within_reach(
    siblings: Seq<SiblingView>,
    repository: Seq<char>,
    revision: Seq<char>,
) -> bool {
    forall|i: int|
        0 <= i < siblings.len() ==> reachable(
            file_segments(repository, revision, (#[trigger] siblings[i]).rfilename),
        )
}

/// Whether the address of each file of a repository has no more bytes than can be counted.
pub fn files_are_reachable(siblings: &Vec<HfSibling>, repository: &str, revision: &str) -> (result:
    bool)
    ensures
        result == within_reach(views(siblings@), repository@, revision@),
{
    let ghost all = views(siblings@);
    let mut i: usize = 0;
    while i < siblings.len()
        invariant
            i <= siblings.len(),
            all == views(siblings@),
            forall|k: int|
                0 <= k < i ==> reachable(
                    file_segments(repository@, revision@, (#[trigger] all[k]).rfilename),
                ),
        decreases siblings.len() - i,
    {
        proof {
            assert(all[i as int] == siblings@[i as int]@);
        }
        if !file_is_reachable(repository, revision, siblings[i].rfilename.as_str()) {
            return false;
        }
        i += 1;
    }
    true
}

/// The files of a package of which an artifact is one.
#[derive(Debug)]
pub struct ResolvedPackage {
    pub manifest_filename: String,
    pub primary_filenames: Vec<String>,
}

#[verifier::ext_equal]
pub struct ResolvedPackageView {
    pub manifest_filename: Seq<char>,
    pub primary_filenames: Seq<Seq<char>>,
}

impl View for ResolvedPackage {
    type V = ResolvedPackageView;

    open spec fn view(&self) -> ResolvedPackageView {
        ResolvedPackageView {
            manifest_filename: self.manifest_filename@,
            primary_filenames: views(self.primary_filenames@),
        }
    }
}

/// An artifact to acquire: the file that was asked for, those that go with it, and the package that it
/// belongs to.
#[derive(Debug)]
pub struct ResolvedArtifact {
    pub provider: String,
    pub repository: String,
    pub revision: String,
    pub primary: ResolvedFile,
    pub companions: Vec<ResolvedFile>,
    pub format: String,
    pub package: Option<ResolvedPackage>,
}

#[verifier::ext_equal]
pub struct ResolvedArtifactView {
    pub provider: Seq<char>,
    pub repository: Seq<char>,
    pub revision: Seq<char>,
    pub primary: ResolvedFileView,
    pub companions: Seq<ResolvedFileView>,
    pub format: Seq<char>,
    pub package: Option<ResolvedPackageView>,
}

impl View for ResolvedArtifact {
    type V = ResolvedArtifactView;

    open spec fn view(&self) -> ResolvedArtifactView {
        ResolvedArtifactView {
            provider: self.provider@,
            repository: self.repository@,
            revision: self.revision@,
            primary: self.primary@,
            companions: views(self.companions@),
            format: self.format@,
            package: optional(self.package),
        }
    }
}

/// Whether a remote entry is known to work. None is before it was looked at here.
#[derive(Debug, Clone, Copy, PartialEq, Eq, Structural)]
pub enum CatalogCompatibility {
    Unverified,
}

/// An artifact of a repository.
#[derive(Debug)]
pub struct CatalogFile {
    pub filename: String,
    pub format: String,
    pub model_ref: String,
    pub size_bytes: Option<u64>,
    pub sha256: Option<String>,
    pub required_companions: Vec<String>,
    pub package_manifest: Option<String>,
    pub compatibility: CatalogCompatibility,
}

#[verifier::ext_equal]
pub struct CatalogFileView {
    pub filename: Seq<char>,
    pub format: Seq<char>,
    pub model_ref: Seq<char>,
    pub size_bytes: Option<u64>,
    pub sha256: Option<Seq<char>>,
    pub required_companions: Seq<Seq<char>>,
    pub package_manifest: Option<Seq<char>>,
    pub compatibility: CatalogCompatibility,
}

impl View for CatalogFile {
    type V = CatalogFileView;

    open spec fn view(&self) -> CatalogFileView {
        CatalogFileView {
            filename: self.filename@,
            format: self.format@,
            model_ref: self.model_ref@,
            size_bytes: self.size_bytes,
            sha256: optional(self.sha256),
            required_companions: views(self.required_companions@),
            package_manifest: optional(self.package_manifest),
            compatibility: self.compatibility,
        }
    }
}

/// A repository and its artifacts.
#[derive(Debug)]
pub struct CatalogRepository {
    pub provider: String,
    pub repository: String,
    pub revision: String,
    pub artifacts: Vec<CatalogFile>,
}

#[verifier::ext_equal]
pub struct CatalogRepositoryView {
    pub provider: Seq<char>,
    pub repository: Seq<char>,
    pub revision: Seq<char>,
    pub artifacts: Seq<CatalogFileView>,
}

impl View for CatalogRepository {
    type V = CatalogRepositoryView;

    open spec fn view(&self) -> CatalogRepositoryView {
        CatalogRepositoryView {
            provider: self.provider@,
            repository: self.repository@,
            revision: self.revision@,
            artifacts: views(self.artifacts@),
        }
    }
}

/// Whether a repository has a file.
pub open spec fn has_file(siblings: Seq<SiblingView>, filename: Seq<char>) -> bool {
    exists|i: int| 0 <= i < siblings.len() && (#[trigger] siblings[i]).rfilename == filename
}

/// The first file of a name.
pub open spec fn file_named(siblings: Seq<SiblingView>, filename: Seq<char>) -> Option<SiblingView>
    decreases siblings.len(),
{
    if siblings.len() == 0 {
        None
    } else if siblings[0].rfilename == filename {
        Some(siblings[0])
    } else {
        file_named(siblings.skip(1), filename)
    }
}

pub fn find_file<'a>(siblings: &'a Vec<HfSibling>, filename: &str) -> (result: Option<&'a HfSibling>)
    ensures
        referenced(result) == file_named(views(siblings@), filename@),
        result is Some <==> has_file(views(siblings@), filename@),
        result matches Some(sibling) ==> sibling@.rfilename == filename@,
{
    let ghost all = views(siblings@);
    let mut i: usize = 0;
    proof {
        assert(all.skip(0) =~= all);
    }
    while i < siblings.len()
        invariant
            i <= siblings.len(),
            all == views(siblings@),
            file_named(all, filename@) == file_named(all.skip(i as int), filename@),
            forall|k: int| 0 <= k < i ==> (#[trigger] all[k]).rfilename != filename@,
        decreases siblings.len() - i,
    {
        proof {
            assert(all.skip(i as int)[0] == siblings@[i as int]@);
            assert(all[i as int] == siblings@[i as int]@);
            assert(all.skip(i as int).skip(1) =~= all.skip(i + 1));
        }
        if same(siblings[i].rfilename.as_str(), filename) {
            return Some(&siblings[i]);
        }
        i += 1;
    }
    None
}

/// The name of a manifest in one of the directories that a file is in, by how many parts lead there.
pub open spec fn manifest_at(file: Seq<PartView>, depth: int, manifest: Seq<char>) -> Seq<char> {
    joined(names(file.take(depth)).push(manifest), "/"@)
}

/// How many parts lead to the directory that a file is in.
pub open spec fn directory_depth(file: Seq<PartView>) -> int {
    if file.len() > 0 {
        file.len() - 1
    } else {
        0
    }
}

/// The nearest directory at or above a depth that has a manifest, by its depth.
pub open spec fn nearest_depth(
    siblings: Seq<SiblingView>,
    file: Seq<PartView>,
    depth: int,
    manifest: Seq<char>,
) -> Option<int>
    decreases depth + 1,
{
    if depth < 0 {
        None
    } else if has_file(siblings, manifest_at(file, depth, manifest)) {
        Some(depth)
    } else {
        nearest_depth(siblings, file, depth - 1, manifest)
    }
}

fn write_manifest_at(file: &Vec<PathPart>, depth: usize, manifest: &str) -> (result: String)
    requires
        depth <= file@.len(),
    ensures
        result@ == manifest_at(views(file@), depth as int, manifest@),
{
    let mut list = part_names(file, depth);
    let last = manifest.to_owned();
    proof {
        lemma_views_push(list@, last);
    }
    list.push(last);
    join(&list, "/")
}

/// The nearest manifest at or above a depth, by its depth, with its name.
pub fn find_manifest(
    siblings: &Vec<HfSibling>,
    file: &Vec<PathPart>,
    from: usize,
    manifest: &str,
) -> (result: Option<(usize, String)>)
    requires
        from <= file@.len(),
    ensures
        match (result, nearest_depth(views(siblings@), views(file@), from as int, manifest@)) {
            (Some((depth, name)), Some(expected)) => depth == expected && depth <= from && name@
                == manifest_at(views(file@), expected, manifest@),
            (None, None) => true,
            _ => false,
        },
{
    let mut depth: usize = from;
    loop
        invariant
            depth <= from <= file@.len(),
            nearest_depth(views(siblings@), views(file@), from as int, manifest@)
                == nearest_depth(views(siblings@), views(file@), depth as int, manifest@),
        decreases depth,
    {
        let name = write_manifest_at(file, depth, manifest);
        if find_file(siblings, name.as_str()).is_some() {
            return Some((depth, name));
        }
        if depth == 0 {
            proof {
                assert(nearest_depth(views(siblings@), views(file@), -1, manifest@) is None);
            }
            return None;
        }
        depth -= 1;
    }
}

/// The name of the nearest manifest of the directories that a file is in.
pub open spec fn nearest_manifest(
    siblings: Seq<SiblingView>,
    filename: Seq<char>,
    manifest: Seq<char>,
) -> Option<Seq<char>> {
    let file = parts(filename);
    match nearest_depth(siblings, file, directory_depth(file), manifest) {
        Some(depth) => Some(manifest_at(file, depth, manifest)),
        None => None,
    }
}

pub fn nearest_package_manifest(
    siblings: &Vec<HfSibling>,
    filename: &str,
    manifest: &str,
) -> (result: Option<String>)
    ensures
        optional(result) == nearest_manifest(views(siblings@), filename@, manifest@),
{
    let file = path_parts(filename);
    let from: usize = if file.len() > 0 {
        file.len() - 1
    } else {
        0
    };
    proof {
        assert(views(file@).len() == file@.len());
    }
    match find_manifest(siblings, &file, from, manifest) {
        Some((_, name)) => Some(name),
        None => None,
    }
}

/// Whether a file may be the tokenizer of an artifact.
pub open spec fn may_tokenize(sibling: SiblingView, filename: Seq<char>) -> bool {
    ends(ascii_lower(sibling.rfilename), ".tok"@) && parent(parts(sibling.rfilename)) == parent(
        parts(filename),
    )
}

/// The files that may be the tokenizer of an artifact.
pub open spec fn tokenizers_of(siblings: Seq<SiblingView>, filename: Seq<char>) -> Seq<Seq<char>>
    decreases siblings.len(),
{
    if siblings.len() == 0 {
        Seq::empty()
    } else if may_tokenize(siblings.last(), filename) {
        tokenizers_of(siblings.drop_last(), filename).push(siblings.last().rfilename)
    } else {
        tokenizers_of(siblings.drop_last(), filename)
    }
}

pub fn tokenizer_candidates(siblings: &Vec<HfSibling>, filename: &str) -> (result: Vec<String>)
    ensures
        views(result@) == tokenizers_of(views(siblings@), filename@),
{
    let ghost all = views(siblings@);
    let mut result: Vec<String> = Vec::new();
    let mut i: usize = 0;
    proof {
        assert(views(result@) =~= tokenizers_of(all.take(0), filename@));
    }
    while i < siblings.len()
        invariant
            i <= siblings.len(),
            all == views(siblings@),
            views(result@) == tokenizers_of(all.take(i as int), filename@),
        decreases siblings.len() - i,
    {
        proof {
            assert(all.take(i + 1).drop_last() =~= all.take(i as int));
            assert(all.take(i + 1).last() == siblings@[i as int]@);
        }
        let name = siblings[i].rfilename.clone();
        if ends_with(to_ascii_lower(name.as_str()).as_str(), ".tok") && same_remote_directory(
            name.as_str(),
            filename,
        ) {
            proof {
                lemma_views_push(result@, name);
            }
            result.push(name);
        }
        i += 1;
    }
    proof {
        assert(all.take(all.len() as int) =~= all);
    }
    result
}

/// What a file of a repository is: its format, if it is an artifact; the name of the manifest of
/// packages of that format; and the tokenizer that goes with it, if one was found.
#[derive(Debug)]
pub struct SiblingFacts {
    pub format: Option<String>,
    pub manifest_name: String,
    pub tokenizer: Option<String>,
}

#[verifier::ext_equal]
pub struct FactsView {
    pub format: Option<Seq<char>>,
    pub manifest_name: Seq<char>,
    pub tokenizer: Option<Seq<char>>,
}

impl View for SiblingFacts {
    type V = FactsView;

    open spec fn view(&self) -> FactsView {
        FactsView {
            format: optional(self.format),
            manifest_name: self.manifest_name@,
            tokenizer: optional(self.tokenizer),
        }
    }
}

/// The entry of a file in the catalog. A q27 artifact outside of a package needs its tokenizer.
pub open spec fn catalog_entry(
    id: Seq<char>,
    revision: Seq<char>,
    siblings: Seq<SiblingView>,
    sibling: SiblingView,
    facts: FactsView,
    filter: Option<Seq<char>>,
) -> Option<CatalogFileView> {
    match facts.format {
        None => None,
        Some(format) => {
            let manifest = nearest_manifest(siblings, sibling.rfilename, facts.manifest_name);
            let needs_tokenizer = format == "q27"@ && manifest is None;
            if filter is Some && filter->0 != format {
                None
            } else if needs_tokenizer && facts.tokenizer is None {
                None
            } else {
                Some(
                    CatalogFileView {
                        filename: sibling.rfilename,
                        format,
                        model_ref: written_reference(id, revision, sibling.rfilename),
                        size_bytes: sibling.file_size(),
                        sha256: sibling.digest(),
                        required_companions: if needs_tokenizer {
                            seq![facts.tokenizer->0]
                        } else {
                            Seq::empty()
                        },
                        package_manifest: manifest,
                        compatibility: CatalogCompatibility::Unverified,
                    },
                )
            }
        },
    }
}

/// The entries of the first files of a repository.
pub open spec fn catalog_entries(
    id: Seq<char>,
    revision: Seq<char>,
    siblings: Seq<SiblingView>,
    facts: Seq<FactsView>,
    filter: Option<Seq<char>>,
    count: int,
) -> Seq<CatalogFileView>
    decreases count,
{
    if count <= 0 {
        Seq::empty()
    } else {
        let before = catalog_entries(id, revision, siblings, facts, filter, count - 1);
        match catalog_entry(
            id,
            revision,
            siblings,
            siblings[count - 1],
            facts[count - 1],
            filter,
        ) {
            Some(entry) => before.push(entry),
            None => before,
        }
    }
}

fn make_entry(
    id: &str,
    revision: &str,
    siblings: &Vec<HfSibling>,
    sibling: &HfSibling,
    facts: &SiblingFacts,
    filter: &Option<String>,
) -> (result: Option<CatalogFile>)
    ensures
        optional(result) == catalog_entry(
            id@,
            revision@,
            views(siblings@),
            sibling@,
            facts@,
            optional(*filter),
        ),
{
    let format = match &facts.format {
        Some(format) => format,
        None => {
            return None;
        },
    };
    match filter {
        Some(filter) => {
            if !same(filter.as_str(), format.as_str()) {
                return None;
            }
        },
        None => {},
    }
    let package_manifest = nearest_package_manifest(
        siblings,
        sibling.rfilename.as_str(),
        facts.manifest_name.as_str(),
    );
    let mut required_companions: Vec<String> = Vec::new();
    if same(format.as_str(), "q27") && package_manifest.is_none() {
        match &facts.tokenizer {
            Some(tokenizer) => {
                required_companions.push(tokenizer.clone());
                proof {
                    assert(views(required_companions@) =~= seq![tokenizer@]);
                }
            },
            None => {
                return None;
            },
        }
    } else {
        proof {
            assert(views(required_companions@) =~= Seq::empty());
        }
    }
    Some(
        CatalogFile {
            filename: sibling.rfilename.clone(),
            format: format.clone(),
            model_ref: write_reference(id, revision, sibling.rfilename.as_str()),
            size_bytes: sibling.size(),
            sha256: sibling.sha256(),
            required_companions,
            package_manifest,
            compatibility: CatalogCompatibility::Unverified,
        },
    )
}

/// A repository as it is listed: at the commit that is known, else at its main branch. One without an
/// artifact is not listed.
pub open spec fn catalog_of(
    repository: HfRepository,
    facts: Seq<FactsView>,
    filter: Option<Seq<char>>,
) -> Option<CatalogRepositoryView> {
    let revision = match repository.sha {
        Some(sha) => sha@,
        None => "main"@,
    };
    let artifacts = catalog_entries(
        repository.id@,
        revision,
        views(repository.siblings@),
        facts,
        filter,
        repository.siblings@.len() as int,
    );
    if artifacts.len() == 0 {
        None
    } else {
        Some(
            CatalogRepositoryView {
                provider: "huggingface"@,
                repository: repository.id@,
                revision,
                artifacts,
            },
        )
    }
}

pub fn into_catalog(
    repository: &HfRepository,
    facts: &Vec<SiblingFacts>,
    filter: &Option<String>,
) -> (result: Option<CatalogRepository>)
    requires
        facts@.len() == repository.siblings@.len(),
    ensures
        optional(result) == catalog_of(*repository, views(facts@), optional(*filter)),
{
    let revision = match &repository.sha {
        Some(sha) => sha.clone(),
        None => "main".to_owned(),
    };
    let siblings = &repository.siblings;
    let ghost known = views(facts@);
    let ghost wanted = optional(*filter);
    let ghost all = views(siblings@);
    let mut artifacts: Vec<CatalogFile> = Vec::new();
    let mut i: usize = 0;
    proof {
        assert(views(artifacts@) =~= Seq::empty());
    }
    while i < siblings.len()
        invariant
            i <= siblings.len(),
            facts@.len() == siblings@.len(),
            siblings == &repository.siblings,
            known == views(facts@),
            wanted == optional(*filter),
            all == views(siblings@),
            views(artifacts@) == catalog_entries(
                repository.id@,
                revision@,
                all,
                known,
                wanted,
                i as int,
            ),
        decreases siblings.len() - i,
    {
        proof {
            assert(all[i as int] == siblings@[i as int]@);
            assert(known[i as int] == facts@[i as int]@);
        }
        match make_entry(
            repository.id.as_str(),
            revision.as_str(),
            siblings,
            &siblings[i],
            &facts[i],
            filter,
        ) {
            Some(entry) => {
                proof {
                    lemma_views_push(artifacts@, entry);
                }
                artifacts.push(entry);
            },
            None => {},
        }
        i += 1;
    }
    proof {
        assert(views(artifacts@).len() == artifacts@.len());
    }
    if artifacts.len() == 0 {
        None
    } else {
        Some(
            CatalogRepository {
                provider: "huggingface".to_owned(),
                repository: repository.id.clone(),
                revision,
                artifacts,
            },
        )
    }
}

/// What a file of a package is there for.
#[derive(Debug, Clone, Copy, PartialEq, Eq, Structural)]
pub enum PackageRole {
    Manifest,
    Primary,
    Tokenizer,
    Projector,
    Sharp,
    Other,
}

impl PackageRole {
    pub open spec fn name(self) -> Seq<char> {
        match self {
            PackageRole::Manifest => "manifest"@,
            PackageRole::Primary => "primary"@,
            PackageRole::Tokenizer => "tokenizer"@,
            PackageRole::Projector => "projector"@,
            PackageRole::Sharp => "Sharp metadata"@,
            PackageRole::Other => "auxiliary"@,
        }
    }
}

pub fn package_role_name(role: PackageRole) -> (result: &'static str)
    ensures
        result@ == role.name(),
{
    match role {
        PackageRole::Manifest => "manifest",
        PackageRole::Primary => "primary",
        PackageRole::Tokenizer => "tokenizer",
        PackageRole::Projector => "projector",
        PackageRole::Sharp => "Sharp metadata",
        PackageRole::Other => "auxiliary",
    }
}

/// A file that the manifest of a package asks for.
#[derive(Debug)]
pub struct PlannedFile {
    pub path: String,
    pub role: PackageRole,
    pub size_bytes: Option<u64>,
    pub sha256: Option<String>,
}

#[verifier::ext_equal]
pub struct PlannedView {
    pub path: Seq<char>,
    pub role: PackageRole,
    pub size_bytes: Option<u64>,
    pub sha256: Option<Seq<char>>,
}

impl View for PlannedFile {
    type V = PlannedView;

    open spec fn view(&self) -> PlannedView {
        PlannedView {
            path: self.path@,
            role: self.role,
            size_bytes: self.size_bytes,
            sha256: optional(self.sha256),
        }
    }
}

/// What a manifest says: its files, or why it is invalid and whether it still claims the artifact.
#[derive(Debug)]
pub enum ManifestPlan {
    Valid(Vec<PlannedFile>),
    Invalid { error: String, claims_selected: bool },
}

#[verifier::ext_equal]
pub enum ManifestPlanView {
    Valid(Seq<PlannedView>),
    Invalid { error: Seq<char>, claims_selected: bool },
}

impl View for ManifestPlan {
    type V = ManifestPlanView;

    open spec fn view(&self) -> ManifestPlanView {
        match self {
            ManifestPlan::Valid(files) => ManifestPlanView::Valid(views(files@)),
            ManifestPlan::Invalid { error, claims_selected } => ManifestPlanView::Invalid {
                error: error@,
                claims_selected: *claims_selected,
            },
        }
    }
}

/// The first file of a plan at a path.
pub open spec fn planned_at(files: Seq<PlannedView>, path: Seq<PartView>) -> Option<PlannedView>
    decreases files.len(),
{
    if files.len() == 0 {
        None
    } else if parts(files[0].path) == path {
        Some(files[0])
    } else {
        planned_at(files.skip(1), path)
    }
}

/// A path below a directory, written with slashes.
pub open spec fn below(directory: Seq<PartView>, path: Seq<char>) -> Seq<char> {
    joined(
        if begins(path, "/"@) {
            names(parts(path))
        } else {
            names(directory) + names(parts(path))
        },
        "/"@,
    )
}

/// A planned file as a file to download: both the manifest and the hub must agree where both know
/// something, and what the manifest knows counts.
pub open spec fn planned_download(
    siblings: Seq<SiblingView>,
    repository: Seq<char>,
    revision: Seq<char>,
    directory: Seq<PartView>,
    planned: PlannedView,
) -> Result<ResolvedFileView, LibraryErrorView> {
    let filename = below(directory, planned.path);
    match file_named(siblings, filename) {
        None => Err(
            LibraryErrorView::InvalidCatalog(
                "Norted package manifest references missing file `"@ + filename + "`"@,
            ),
        ),
        Some(sibling) => match resolved_file(sibling, repository, revision) {
            Err(error) => Err(error),
            Ok(file) => if planned.size_bytes is Some && file.size_bytes is Some
                && planned.size_bytes != file.size_bytes {
                Err(
                    LibraryErrorView::InvalidCatalog(
                        "Norted package file `"@ + filename
                            + "` catalog size disagrees with its manifest"@,
                    ),
                )
            } else if planned.sha256 is Some && file.sha256 is Some && ascii_lower(
                planned.sha256->0,
            ) != ascii_lower(file.sha256->0) {
                Err(
                    LibraryErrorView::InvalidCatalog(
                        "Norted package file `"@ + filename
                            + "` catalog digest disagrees with its manifest"@,
                    ),
                )
            } else {
                Ok(
                    ResolvedFileView {
                        size_bytes: if planned.size_bytes is Some {
                            planned.size_bytes
                        } else {
                            file.size_bytes
                        },
                        sha256: if planned.sha256 is Some {
                            planned.sha256
                        } else {
                            file.sha256
                        },
                        ..file
                    },
                )
            },
        },
    }
}

fn write_below(directory: &Vec<PathPart>, depth: usize, path: &str) -> (result: String)
    requires
        depth <= directory@.len(),
    ensures
        result@ == below(views(directory@).take(depth as int), path@),
{
    let list = path_parts(path);
    let own = part_names(&list, list.len());
    proof {
        assert(views(list@).take(list@.len() as int) =~= views(list@));
    }
    if starts_with(path, "/") {
        join(&own, "/")
    } else {
        let mut all = part_names(directory, depth);
        append_texts(&mut all, own);
        join(&all, "/")
    }
}

fn plan_download(
    siblings: &Vec<HfSibling>,
    repository: &str,
    revision: &str,
    directory: &Vec<PathPart>,
    depth: usize,
    planned: &PlannedFile,
) -> (result: Result<ResolvedFile, ModelLibraryError>)
    requires
        depth <= directory@.len(),
        within_reach(views(siblings@), repository@, revision@),
    ensures
        match (
            result,
            planned_download(
                views(siblings@),
                repository@,
                revision@,
                views(directory@).take(depth as int),
                planned@,
            ),
        ) {
            (Ok(file), Ok(expected)) => file@ == expected,
            (Err(error), Err(expected)) => error@ == expected,
            _ => false,
        },
{
    let filename = write_below(directory, depth, planned.path.as_str());
    let sibling = match find_file(siblings, filename.as_str()) {
        Some(sibling) => sibling,
        None => {
            return Err(
                ModelLibraryError::InvalidCatalog(
                    cat3(
                        "Norted package manifest references missing file `",
                        filename.as_str(),
                        "`",
                    ),
                ),
            );
        },
    };
    let mut file = match sibling.resolved(repository, revision) {
        Ok(file) => file,
        Err(error) => {
            return Err(error);
        },
    };
    match (planned.size_bytes, file.size_bytes) {
        (Some(expected), Some(observed)) => {
            if expected != observed {
                return Err(
                    ModelLibraryError::InvalidCatalog(
                        cat3(
                            "Norted package file `",
                            filename.as_str(),
                            "` catalog size disagrees with its manifest",
                        ),
                    ),
                );
            }
        },
        _ => {},
    }
    match (&planned.sha256, &file.sha256) {
        (Some(expected), Some(observed)) => {
            if !same_ignoring_case(expected.as_str(), observed.as_str()) {
                return Err(
                    ModelLibraryError::InvalidCatalog(
                        cat3(
                            "Norted package file `",
                            filename.as_str(),
                            "` catalog digest disagrees with its manifest",
                        ),
                    ),
                );
            }
        },
        _ => {},
    }
    if planned.size_bytes.is_some() {
        file.size_bytes = planned.size_bytes;
    }
    if planned.sha256.is_some() {
        file.sha256 = duplicate_option(&planned.sha256);
    }
    Ok(file)
}

/// The first planned files as files to download, or the first reason that they cannot be.
pub open spec fn planned_downloads(
    siblings: Seq<SiblingView>,
    repository: Seq<char>,
    revision: Seq<char>,
    directory: Seq<PartView>,
    files: Seq<PlannedView>,
) -> Result<Seq<ResolvedFileView>, LibraryErrorView>
    decreases files.len(),
{
    if files.len() == 0 {
        Ok(Seq::empty())
    } else {
        match planned_downloads(siblings, repository, revision, directory, files.drop_last()) {
            Err(error) => Err(error),
            Ok(before) => match planned_download(
                siblings,
                repository,
                revision,
                directory,
                files.last(),
            ) {
                Err(error) => Err(error),
                Ok(file) => Ok(before.push(file)),
            },
        }
    }
}

/// The names of the primary files of a plan.
pub open spec fn primary_names(directory: Seq<PartView>, files: Seq<PlannedView>) -> Seq<Seq<char>>
    decreases files.len(),
{
    if files.len() == 0 {
        Seq::empty()
    } else if files.last().role == PackageRole::Primary {
        primary_names(directory, files.drop_last()).push(below(directory, files.last().path))
    } else {
        primary_names(directory, files.drop_last())
    }
}

/// What a manifest in a directory of an artifact comes to: the package with its files; nothing, where
/// it does not speak of the artifact; or an error.
pub open spec fn considered(
    siblings: Seq<SiblingView>,
    repository: Seq<char>,
    revision: Seq<char>,
    filename: Seq<char>,
    depth: int,
    manifest: Seq<char>,
    plan: ManifestPlanView,
) -> Result<Option<(ResolvedPackageView, Seq<ResolvedFileView>)>, LibraryErrorView> {
    let file = parts(filename);
    let directory = file.take(depth);
    match plan {
        ManifestPlanView::Invalid { error, claims_selected } => if claims_selected {
            Err(
                LibraryErrorView::InvalidCatalog(
                    "Norted package manifest `"@ + manifest + "` claims `"@ + filename
                        + "` but is invalid: "@ + error,
                ),
            )
        } else {
            Ok(None)
        },
        ManifestPlanView::Valid(files) => match planned_at(files, file.skip(depth)) {
            None => Ok(None),
            Some(selected) => if selected.role != PackageRole::Primary {
                Err(
                    LibraryErrorView::InvalidCatalog(
                        "Norted package manifest `"@ + manifest + "` declares `"@ + filename
                            + "` as a non-primary "@ + selected.role.name()
                            + " member; select a primary model artifact instead"@,
                    ),
                )
            } else {
                match planned_downloads(siblings, repository, revision, directory, files) {
                    Err(error) => Err(error),
                    Ok(downloads) => Ok(
                        Some(
                            (
                                ResolvedPackageView {
                                    manifest_filename: manifest,
                                    primary_filenames: primary_names(directory, files),
                                },
                                downloads,
                            ),
                        ),
                    ),
                }
            },
        },
    }
}

fn find_planned<'a>(
    files: &'a Vec<PlannedFile>,
    file: &Vec<PathPart>,
    depth: usize,
) -> (result: Option<&'a PlannedFile>)
    requires
        depth <= file@.len(),
    ensures
        referenced(result) == planned_at(views(files@), views(file@).skip(depth as int)),
{
    let ghost all = views(files@);
    let ghost wanted = views(file@).skip(depth as int);
    let mut i: usize = 0;
    proof {
        assert(all.skip(0) =~= all);
    }
    while i < files.len()
        invariant
            i <= files.len(),
            depth <= file@.len(),
            all == views(files@),
            wanted == views(file@).skip(depth as int),
            planned_at(all, wanted) == planned_at(all.skip(i as int), wanted),
        decreases files.len() - i,
    {
        proof {
            assert(all.skip(i as int)[0] == files@[i as int]@);
            assert(all.skip(i as int).skip(1) =~= all.skip(i + 1));
        }
        let list = path_parts(files[i].path.as_str());
        let length: usize = file.len();
        let mut same_here = list.len() == length - depth;
        let mut j: usize = 0;
        let ghost found = parts(files@[i as int].path@);
        proof {
            assert(found.len() == list@.len());
        }
        while same_here && j < list.len()
            invariant
                j <= list.len(),
                depth <= file@.len(),
                file@.len() == length,
                found == views(list@),
                wanted == views(file@).skip(depth as int),
                same_here ==> list@.len() == file@.len() - depth,
                same_here ==> forall|k: int| 0 <= k < j ==> #[trigger] found[k] == wanted[k],
                !same_here ==> found != wanted,
            decreases list.len() - j + if same_here {
                1int
            } else {
                0int
            },
        {
            proof {
                assert(found[j as int] == list@[j as int]@);
                assert(wanted[j as int] == file@[depth + j]@);
            }
            if same_part(&list[j], &file[depth + j]) {
                j += 1;
            } else {
                proof {
                    assert(found[j as int] != wanted[j as int]);
                }
                same_here = false;
            }
        }
        if same_here {
            proof {
                assert(found =~= wanted);
            }
            return Some(&files[i]);
        }
        i += 1;
    }
    None
}

fn list_primaries(directory: &Vec<PathPart>, depth: usize, files: &Vec<PlannedFile>) -> (result: Vec<
    String,
>)
    requires
        depth <= directory@.len(),
    ensures
        views(result@) == primary_names(views(directory@).take(depth as int), views(files@)),
{
    let ghost all = views(files@);
    let ghost place = views(directory@).take(depth as int);
    let mut result: Vec<String> = Vec::new();
    let mut i: usize = 0;
    proof {
        assert(views(result@) =~= primary_names(place, all.take(0)));
    }
    while i < files.len()
        invariant
            i <= files.len(),
            depth <= directory@.len(),
            all == views(files@),
            place == views(directory@).take(depth as int),
            views(result@) == primary_names(place, all.take(i as int)),
        decreases files.len() - i,
    {
        proof {
            assert(all.take(i + 1).drop_last() =~= all.take(i as int));
            assert(all.take(i + 1).last() == files@[i as int]@);
        }
        if files[i].role == PackageRole::Primary {
            let name = write_below(directory, depth, files[i].path.as_str());
            proof {
                lemma_views_push(result@, name);
            }
            result.push(name);
        }
        i += 1;
    }
    proof {
        assert(all.take(all.len() as int) =~= all);
    }
    result
}

fn list_downloads(
    siblings: &Vec<HfSibling>,
    repository: &str,
    revision: &str,
    directory: &Vec<PathPart>,
    depth: usize,
    files: &Vec<PlannedFile>,
) -> (result: Result<Vec<ResolvedFile>, ModelLibraryError>)
    requires
        depth <= directory@.len(),
        within_reach(views(siblings@), repository@, revision@),
    ensures
        match (
            result,
            planned_downloads(
                views(siblings@),
                repository@,
                revision@,
                views(directory@).take(depth as int),
                views(files@),
            ),
        ) {
            (Ok(list), Ok(expected)) => views(list@) == expected,
            (Err(error), Err(expected)) => error@ == expected,
            _ => false,
        },
{
    let ghost all = views(files@);
    let ghost place = views(directory@).take(depth as int);
    let ghost known = views(siblings@);
    let mut result: Vec<ResolvedFile> = Vec::new();
    let mut i: usize = 0;
    proof {
        assert(views(result@) =~= Seq::empty());
        assert(all.take(0) =~= Seq::empty());
    }
    while i < files.len()
        invariant
            i <= files.len(),
            depth <= directory@.len(),
            all == views(files@),
            known == views(siblings@),
            within_reach(known, repository@, revision@),
            place == views(directory@).take(depth as int),
            planned_downloads(known, repository@, revision@, place, all.take(i as int)) == Ok::<
                Seq<ResolvedFileView>,
                LibraryErrorView,
            >(views(result@)),
        decreases files.len() - i,
    {
        proof {
            assert(all.take(i + 1).drop_last() =~= all.take(i as int));
            assert(all.take(i + 1).last() == files@[i as int]@);
        }
        match plan_download(siblings, repository, revision, directory, depth, &files[i]) {
            Ok(file) => {
                proof {
                    lemma_views_push(result@, file);
                }
                result.push(file);
            },
            Err(error) => {
                proof {
                    lemma_download_fails(
                        known,
                        repository@,
                        revision@,
                        place,
                        all,
                        i + 1,
                    );
                }
                return Err(error);
            },
        }
        i += 1;
    }
    proof {
        assert(all.take(all.len() as int) =~= all);
    }
    Ok(result)
}

proof fn lemma_download_fails(
    siblings: Seq<SiblingView>,
    repository: Seq<char>,
    revision: Seq<char>,
    directory: Seq<PartView>,
    files: Seq<PlannedView>,
    count: int,
)
    requires
        0 <= count <= files.len(),
        planned_downloads(siblings, repository, revision, directory, files.take(count)) is Err,
    ensures
        planned_downloads(siblings, repository, revision, directory, files) == planned_downloads(
            siblings,
            repository,
            revision,
            directory,
            files.take(count),
        ),
    decreases files.len(),
{
    if count == files.len() {
        assert(files.take(count) =~= files);
    } else {
        assert(files.drop_last().take(count) =~= files.take(count));
        lemma_download_fails(siblings, repository, revision, directory, files.drop_last(), count);
    }
}

pub fn consider_manifest(
    siblings: &Vec<HfSibling>,
    repository: &str,
    revision: &str,
    filename: &str,
    depth: usize,
    manifest: &str,
    plan: &ManifestPlan,
) -> (result: Result<Option<(ResolvedPackage, Vec<ResolvedFile>)>, ModelLibraryError>)
    requires
        depth <= parts(filename@).len(),
        within_reach(views(siblings@), repository@, revision@),
    ensures
        match (
            result,
            considered(
                views(siblings@),
                repository@,
                revision@,
                filename@,
                depth as int,
                manifest@,
                plan@,
            ),
        ) {
            (Ok(Some((package, files))), Ok(Some((expected, wanted)))) => package@ == expected
                && views(files@) == wanted,
            (Ok(None), Ok(None)) => true,
            (Err(error), Err(expected)) => error@ == expected,
            _ => false,
        },
{
    let file = path_parts(filename);
    proof {
        assert(views(file@).len() == file@.len());
    }
    match plan {
        ManifestPlan::Invalid { error, claims_selected } => {
            if *claims_selected {
                Err(
                    ModelLibraryError::InvalidCatalog(
                        cat6(
                            "Norted package manifest `",
                            manifest,
                            "` claims `",
                            filename,
                            "` but is invalid: ",
                            error.as_str(),
                        ),
                    ),
                )
            } else {
                Ok(None)
            }
        },
        ManifestPlan::Valid(files) => {
            let selected = match find_planned(files, &file, depth) {
                Some(selected) => selected,
                None => {
                    return Ok(None);
                },
            };
            if selected.role != PackageRole::Primary {
                let head = cat5(
                    "Norted package manifest `",
                    manifest,
                    "` declares `",
                    filename,
                    "` as a non-primary ",
                );
                return Err(
                    ModelLibraryError::InvalidCatalog(
                        cat3(
                            head.as_str(),
                            package_role_name(selected.role),
                            " member; select a primary model artifact instead",
                        ),
                    ),
                );
            }
            match list_downloads(siblings, repository, revision, &file, depth, files) {
                Err(error) => Err(error),
                Ok(downloads) => Ok(
                    Some(
                        (
                            ResolvedPackage {
                                manifest_filename: manifest.to_owned(),
                                primary_filenames: list_primaries(&file, depth, files),
                            },
                            downloads,
                        ),
                    ),
                ),
            }
        },
    }
}

/// What a reference comes to before its package is known: the revision to take and the format of the
/// file, which must be one of the repository's.
pub open spec fn begun(
    reference: ReferenceView,
    sha: Option<Seq<char>>,
    siblings: Seq<SiblingView>,
    format: Option<Seq<char>>,
) -> Result<(Seq<char>, Seq<char>), LibraryErrorView> {
    let revision = match sha {
        Some(sha) => sha,
        None => reference.revision,
    };
    match format {
        None => Err(
            LibraryErrorView::InvalidReference("artifact must end in .gguf, .q27, or .ninfer"@),
        ),
        Some(format) => if has_file(siblings, reference.filename) {
            Ok((revision, format))
        } else {
            Err(
                LibraryErrorView::InvalidReference(
                    reference.repository + " does not contain "@ + reference.filename
                        + " at revision "@ + revision,
                ),
            )
        },
    }
}

pub fn begin_resolution(
    reference: &HfReference,
    repository: &HfRepository,
    format: &Option<String>,
) -> (result: Result<(String, String), ModelLibraryError>)
    ensures
        match (
            result,
            begun(
                reference@,
                optional(repository.sha),
                views(repository.siblings@),
                optional(*format),
            ),
        ) {
            (Ok((revision, format)), Ok(expected)) => (revision@, format@) == expected,
            (Err(error), Err(expected)) => error@ == expected,
            _ => false,
        },
{
    let revision = match &repository.sha {
        Some(sha) => sha.clone(),
        None => reference.revision.clone(),
    };
    let format = match format {
        Some(format) => format.clone(),
        None => {
            return Err(
                ModelLibraryError::InvalidReference(
                    "artifact must end in .gguf, .q27, or .ninfer".to_owned(),
                ),
            );
        },
    };
    if find_file(&repository.siblings, reference.filename.as_str()).is_some() {
        Ok((revision, format))
    } else {
        Err(
            ModelLibraryError::InvalidReference(
                cat5(
                    reference.repository.as_str(),
                    " does not contain ",
                    reference.filename.as_str(),
                    " at revision ",
                    revision.as_str(),
                ),
            ),
        )
    }
}

/// The place of the first file of a name.
pub open spec fn download_at(files: Seq<ResolvedFileView>, filename: Seq<char>) -> Option<int>
    decreases files.len(),
{
    if files.len() == 0 {
        None
    } else {
        match download_at(files.drop_last(), filename) {
            Some(at) => Some(at),
            None => if files.last().filename == filename {
                Some(files.len() - 1)
            } else {
                None
            },
        }
    }
}

/// An artifact that belongs to a package: the file that was asked for is taken out of the files of the
/// package, and the others go with it.
pub open spec fn packaged(
    reference: ReferenceView,
    revision: Seq<char>,
    format: Seq<char>,
    package: ResolvedPackageView,
    files: Seq<ResolvedFileView>,
) -> Result<ResolvedArtifactView, LibraryErrorView> {
    match download_at(files, reference.filename) {
        None => Err(
            LibraryErrorView::InvalidCatalog(
                "resolved package does not contain its selected primary"@,
            ),
        ),
        Some(at) => Ok(
            ResolvedArtifactView {
                provider: "huggingface"@,
                repository: reference.repository,
                revision,
                primary: files[at],
                companions: files.remove(at),
                format,
                package: Some(package),
            },
        ),
    }
}

fn find_download(files: &Vec<ResolvedFile>, filename: &str) -> (result: Option<usize>)
    ensures
        match (result, download_at(views(files@), filename@)) {
            (Some(i), Some(at)) => i == at && i < files@.len(),
            (None, None) => true,
            _ => false,
        },
{
    let ghost all = views(files@);
    let mut found: Option<usize> = None;
    let mut i: usize = 0;
    while i < files.len()
        invariant
            i <= files.len(),
            all == views(files@),
            match (found, download_at(all.take(i as int), filename@)) {
                (Some(b), Some(at)) => b == at && b < i,
                (None, None) => true,
                _ => false,
            },
        decreases files.len() - i,
    {
        proof {
            assert(all.take(i + 1).drop_last() =~= all.take(i as int));
            assert(all.take(i + 1).last() == files@[i as int]@);
        }
        if found.is_none() && same(files[i].filename.as_str(), filename) {
            found = Some(i);
        }
        i += 1;
    }
    proof {
        assert(all.take(all.len() as int) =~= all);
    }
    found
}

pub fn resolve_packaged(
    reference: &HfReference,
    revision: String,
    format: String,
    package: ResolvedPackage,
    files: Vec<ResolvedFile>,
) -> (result: Result<ResolvedArtifact, ModelLibraryError>)
    ensures
        match (
            result,
            packaged(reference@, revision@, format@, package@, views(files@)),
        ) {
            (Ok(artifact), Ok(expected)) => artifact@ == expected,
            (Err(error), Err(expected)) => error@ == expected,
            _ => false,
        },
{
    let ghost all = views(files@);
    let at: usize = match find_download(&files, reference.filename.as_str()) {
        Some(at) => at,
        None => {
            return Err(
                ModelLibraryError::InvalidCatalog(
                    "resolved package does not contain its selected primary".to_owned(),
                ),
            );
        },
    };
    let mut companions = files;
    let primary = companions.remove(at);
    proof {
        assert(primary@ == all[at as int]);
        assert(views(companions@) =~= all.remove(at as int));
    }
    Ok(
        ResolvedArtifact {
            provider: "huggingface".to_owned(),
            repository: reference.repository.clone(),
            revision,
            primary,
            companions,
            format,
            package: Some(package),
        },
    )
}

/// An artifact that belongs to no package. A q27 artifact goes with its tokenizer.
pub open spec fn alone(
    reference: ReferenceView,
    siblings: Seq<SiblingView>,
    revision: Seq<char>,
    format: Seq<char>,
    tokenizer: Result<Option<Seq<char>>, Seq<char>>,
) -> Result<ResolvedArtifactView, LibraryErrorView> {
    let primary = file_named(siblings, reference.filename);
    if primary is None {
        Err(
            LibraryErrorView::InvalidReference(
                reference.repository + " does not contain "@ + reference.filename
                    + " at revision "@ + revision,
            ),
        )
    } else if format != "q27"@ {
        match resolved_file(primary->0, reference.repository, revision) {
            Err(error) => Err(error),
            Ok(file) => Ok(
                ResolvedArtifactView {
                    provider: "huggingface"@,
                    repository: reference.repository,
                    revision,
                    primary: file,
                    companions: Seq::empty(),
                    format,
                    package: None,
                },
            ),
        }
    } else {
        match tokenizer {
            Err(error) => Err(LibraryErrorView::InvalidCatalog(error)),
            Ok(name) => match match name {
                Some(name) => file_named(siblings, name),
                None => None,
            } {
                None => Err(
                    LibraryErrorView::InvalidCatalog(
                        "q27 artifact "@ + reference.filename
                            + " has no tokenizer companion"@,
                    ),
                ),
                Some(companion) => match (
                    resolved_file(companion, reference.repository, revision),
                    resolved_file(primary->0, reference.repository, revision),
                ) {
                    (Err(error), _) => Err(error),
                    (_, Err(error)) => Err(error),
                    (Ok(companion), Ok(file)) => Ok(
                        ResolvedArtifactView {
                            provider: "huggingface"@,
                            repository: reference.repository,
                            revision,
                            primary: file,
                            companions: seq![companion],
                            format,
                            package: None,
                        },
                    ),
                },
            },
        }
    }
}

/// The view of what was found as a tokenizer.
pub open spec fn tokenizer_view(tokenizer: Result<Option<String>, String>) -> Result<
    Option<Seq<char>>,
    Seq<char>,
> {
    match tokenizer {
        Ok(name) => Ok(optional(name)),
        Err(error) => Err(error@),
    }
}

pub fn resolve_alone(
    reference: &HfReference,
    siblings: &Vec<HfSibling>,
    revision: String,
    format: String,
    tokenizer: &Result<Option<String>, String>,
) -> (result: Result<ResolvedArtifact, ModelLibraryError>)
    requires
        within_reach(views(siblings@), reference@.repository, revision@),
    ensures
        match (
            result,
            alone(
                reference@,
                views(siblings@),
                revision@,
                format@,
                tokenizer_view(*tokenizer),
            ),
        ) {
            (Ok(artifact), Ok(expected)) => artifact@ == expected,
            (Err(error), Err(expected)) => error@ == expected,
            _ => false,
        },
{
    let repository = reference.repository.as_str();
    let primary = match find_file(siblings, reference.filename.as_str()) {
        Some(primary) => primary,
        None => {
            return Err(
                ModelLibraryError::InvalidReference(
                    cat5(
                        repository,
                        " does not contain ",
                        reference.filename.as_str(),
                        " at revision ",
                        revision.as_str(),
                    ),
                ),
            );
        },
    };
    let mut companions: Vec<ResolvedFile> = Vec::new();
    proof {
        assert(views(companions@) =~= Seq::empty());
    }
    if same(format.as_str(), "q27") {
        let name = match tokenizer {
            Err(error) => {
                return Err(ModelLibraryError::InvalidCatalog(error.clone()));
            },
            Ok(name) => name,
        };
        let found = match name {
            Some(name) => find_file(siblings, name.as_str()),
            None => None,
        };
        match found {
            None => {
                return Err(
                    ModelLibraryError::InvalidCatalog(
                        cat3(
                            "q27 artifact ",
                            reference.filename.as_str(),
                            " has no tokenizer companion",
                        ),
                    ),
                );
            },
            Some(sibling) => match sibling.resolved(repository, revision.as_str()) {
                Err(error) => {
                    return Err(error);
                },
                Ok(file) => {
                    let ghost view = file@;
                    companions.push(file);
                    proof {
                        assert(views(companions@) =~= seq![view]);
                    }
                },
            },
        }
    }
    match primary.resolved(repository, revision.as_str()) {
        Err(error) => Err(error),
        Ok(file) => Ok(
            ResolvedArtifact {
                provider: "huggingface".to_owned(),
                repository: reference.repository.clone(),
                revision,
                primary: file,
                companions,
                format,
                package: None,
            },
        ),
    }
}

/// A search for the package of a file: from which directory on manifests are still to be looked at, by
/// how many parts lead there.
#[derive(Debug)]
pub struct PackageSearch {
    from: Option<usize>,
}

impl View for PackageSearch {
    type V = Option<int>;

    closed spec fn view(&self) -> Option<int> {
        match self.from {
            Some(from) => Some(from as int),
            None => None,
        }
    }
}

/// The next directory of a search that has a manifest.
pub open spec fn next_depth(
    siblings: Seq<SiblingView>,
    file: Seq<PartView>,
    from: Option<int>,
    manifest: Seq<char>,
) -> Option<int> {
    match from {
        Some(from) => nearest_depth(siblings, file, from, manifest),
        None => None,
    }
}

impl PackageSearch {
    /// Begins in the directory that a file is in.
    pub fn new(filename: &str) -> (result: PackageSearch)
        ensures
            result@ == Some(directory_depth(parts(filename@))),
    {
        let file = path_parts(filename);
        proof {
            assert(views(file@).len() == file@.len());
        }
        PackageSearch {
            from: Some(
                if file.len() > 0 {
                    file.len() - 1
                } else {
                    0
                },
            ),
        }
    }

    /// The next manifest on the way up, with how many parts lead to its directory. After it, only the
    /// directories above it are left.
    pub fn next(&mut self, siblings: &Vec<HfSibling>, filename: &str, manifest: &str) -> (result:
        Option<(usize, String)>)
        requires
            old(self)@ is Some ==> old(self)@->0 <= directory_depth(parts(filename@)),
        ensures
            match (
                result,
                next_depth(views(siblings@), parts(filename@), old(self)@, manifest@),
            ) {
                (Some((depth, name)), Some(expected)) => depth == expected && depth
                    <= directory_depth(parts(filename@)) && name@ == manifest_at(
                    parts(filename@),
                    expected,
                    manifest@,
                ) && final(self)@ == if depth == 0 {
                    None
                } else {
                    Some(depth - 1)
                },
                (None, None) => final(self)@ is None,
                _ => false,
            },
    {
        let file = path_parts(filename);
        proof {
            assert(views(file@).len() == file@.len());
        }
        let from: usize = match self.from {
            Some(from) => from,
            None => {
                return None;
            },
        };
        match find_manifest(siblings, &file, from, manifest) {
            Some((depth, name)) => {
                self.from = if depth == 0 {
                    None
                } else {
                    Some(depth - 1)
                };
                Some((depth, name))
            },
            None => {
                self.from = None;
                None
            },
        }
    }
}

/// What a search of all catalogs found.
#[derive(Debug)]
pub struct CatalogSearch {
    pub query: String,
    pub repositories: Vec<CatalogRepository>,
}

impl CatalogSearch {
    pub fn new(query: &str) -> (result: CatalogSearch)
        ensures
            result.query@ == query@,
            views(result.repositories@) == Seq::<CatalogRepositoryView>::empty(),
    {
        let repositories: Vec<CatalogRepository> = Vec::new();
        proof {
            assert(views(repositories@) =~= Seq::<CatalogRepositoryView>::empty());
        }
        CatalogSearch { query: query.to_owned(), repositories }
    }

    /// Adds what one catalog found.
    pub fn extend(&mut self, found: Vec<CatalogRepository>)
        ensures
            final(self).query == old(self).query,
            views(final(self).repositories@) == views(old(self).repositories@) + views(found@),
    {
        let mut found = found;
        let ghost (before, added) = (self.repositories@, found@);
        self.repositories.append(&mut found);
        proof {
            assert(views(self.repositories@) =~= views(before) + views(added));
        }
    }
}

/// A large file has the size and the digest of its pointer; another file has its own size and none.
pub proof fn law_sizes_of_large_files_count(
    rfilename: Seq<char>,
    size: Option<u64>,
    digest: Option<Seq<char>>,
    large: u64,
)
    ensures
        (SiblingView { rfilename, size, lfs: Some((digest, Some(large))) }).file_size() == Some(large),
        (SiblingView { rfilename, size, lfs: Some((digest, None)) }).file_size() == size,
        (SiblingView { rfilename, size, lfs: None }).file_size() == size,
        (SiblingView { rfilename, size, lfs: Some((digest, None)) }).digest() == digest,
        (SiblingView { rfilename, size, lfs: None }).digest() is None,
{
}

/// The file of a name is the first that has it, and there is none exactly where no file has it.
pub proof fn law_files_are_found_by_name(siblings: Seq<SiblingView>, filename: Seq<char>)
    ensures
        match file_named(siblings, filename) {
            Some(found) => found.rfilename == filename && exists|i: int|
                0 <= i < siblings.len() && #[trigger] siblings[i] == found,
            None => forall|i: int|
                0 <= i < siblings.len() ==> (#[trigger] siblings[i]).rfilename != filename,
        },
        siblings.len() > 0 && siblings[0].rfilename == filename ==> file_named(siblings, filename)
            == Some(siblings[0]),
    decreases siblings.len(),
{
    if siblings.len() > 0 && siblings[0].rfilename != filename {
        let rest = siblings.skip(1);
        law_files_are_found_by_name(rest, filename);
        match file_named(rest, filename) {
            Some(found) => {
                let i = choose|i: int| 0 <= i < rest.len() && #[trigger] rest[i] == found;
                assert(siblings[i + 1] == found);
            },
            None => {
                assert forall|i: int| 0 <= i < siblings.len() implies (
                #[trigger] siblings[i]).rfilename != filename by {
                    if i > 0 {
                        assert(rest[i - 1] == siblings[i]);
                    }
                }
            },
        }
    }
}

/// The manifest of a file is looked for in the directory that it is in and then in those above: what is
/// found is there, nearer ones are not, and nothing is found only where none of them has one.
pub proof fn law_nearest_manifest_is_found(
    siblings: Seq<SiblingView>,
    file: Seq<PartView>,
    depth: int,
    manifest: Seq<char>,
)
    ensures
        match nearest_depth(siblings, file, depth, manifest) {
            Some(at) => 0 <= at <= depth && has_file(siblings, manifest_at(file, at, manifest))
                && forall|k: int|
                at < k <= depth ==> !has_file(siblings, #[trigger] manifest_at(file, k, manifest)),
            None => forall|k: int|
                0 <= k <= depth ==> !has_file(siblings, #[trigger] manifest_at(file, k, manifest)),
        },
    decreases depth + 1,
{
    if depth >= 0 && !has_file(siblings, manifest_at(file, depth, manifest)) {
        law_nearest_manifest_is_found(siblings, file, depth - 1, manifest);
    }
}

/// Whatever may be the tokenizer of an artifact is a file of the repository, in the directory of the
/// artifact, whose name ends in ".tok" however it is written; and each such file may be.
pub proof fn law_tokenizers_are_beside_their_artifact(
    siblings: Seq<SiblingView>,
    filename: Seq<char>,
    name: Seq<char>,
)
    ensures
        tokenizers_of(siblings, filename).contains(name) <==> exists|i: int|
            0 <= i < siblings.len() && (#[trigger] siblings[i]).rfilename == name && ends(
                ascii_lower(name),
                ".tok"@,
            ) && parent(parts(name)) == parent(parts(filename)),
    decreases siblings.len(),
{
    let all = tokenizers_of(siblings, filename);
    if siblings.len() > 0 {
        let rest = siblings.drop_last();
        let some = tokenizers_of(rest, filename);
        law_tokenizers_are_beside_their_artifact(rest, filename, name);
        assert(siblings[siblings.len() - 1] == siblings.last());
        if some.contains(name) {
            let i = choose|i: int|
                0 <= i < rest.len() && (#[trigger] rest[i]).rfilename == name && ends(
                    ascii_lower(name),
                    ".tok"@,
                ) && parent(parts(name)) == parent(parts(filename));
            assert(siblings[i] == rest[i]);
            assert(all[some.index_of(name)] == name);
        }
        if may_tokenize(siblings.last(), filename) {
            assert(all[all.len() - 1] == siblings.last().rfilename);
            if all.contains(name) && name != siblings.last().rfilename {
                assert(some[all.index_of(name)] == name);
            }
        }
        if exists|i: int|
            0 <= i < siblings.len() && (#[trigger] siblings[i]).rfilename == name && ends(
                ascii_lower(name),
                ".tok"@,
            ) && parent(parts(name)) == parent(parts(filename)) {
            let i = choose|i: int|
                0 <= i < siblings.len() && (#[trigger] siblings[i]).rfilename == name && ends(
                    ascii_lower(name),
                    ".tok"@,
                ) && parent(parts(name)) == parent(parts(filename));
            if i < rest.len() {
                assert(rest[i] == siblings[i]);
            }
        }
    } else {
        assert(!all.contains(name));
    }
}

/// A planned file is taken only where the repository has it and the plan does not contradict what the
/// hub knows of its size and digest; what the plan knows counts, and what it does not know is taken from
/// the hub.
pub proof fn law_plans_must_agree_with_the_hub(
    siblings: Seq<SiblingView>,
    repository: Seq<char>,
    revision: Seq<char>,
    directory: Seq<PartView>,
    planned: PlannedView,
)
    ensures
        ({
            let name = below(directory, planned.path);
            let known = file_named(siblings, name);
            match planned_download(siblings, repository, revision, directory, planned) {
                Ok(file) => {
                    &&& known is Some
                    &&& file.filename == name
                    &&& planned.size_bytes is Some ==> file.size_bytes == planned.size_bytes
                    &&& planned.size_bytes is None ==> file.size_bytes == known->0.file_size()
                    &&& planned.sha256 is Some ==> file.sha256 == planned.sha256
                    &&& planned.sha256 is None ==> file.sha256 == known->0.digest()
                    &&& planned.size_bytes is Some && known->0.file_size() is Some
                        ==> planned.size_bytes->0 == known->0.file_size()->0
                    &&& planned.sha256 is Some && known->0.digest() is Some ==> ascii_lower(
                        planned.sha256->0,
                    ) == ascii_lower(known->0.digest()->0)
                    &&& hub_address(file_segments(repository, revision, name)) == Ok::<
                        Seq<char>,
                        LibraryErrorView,
                    >(file.url)
                },
                Err(_) => known is None || hub_address(file_segments(repository, revision, name))
                    is Err || planned.size_bytes is Some && known->0.file_size() is Some
                    && planned.size_bytes->0 != known->0.file_size()->0 || planned.sha256 is Some
                    && known->0.digest() is Some && ascii_lower(planned.sha256->0) != ascii_lower(
                    known->0.digest()->0,
                ),
            }
        }),
{
    law_files_are_found_by_name(siblings, below(directory, planned.path));
}

/// A package is downloaded whole: each file of its plan, in the order of the plan; and where one of them
/// cannot be taken, none is.
pub proof fn law_packages_are_downloaded_whole(
    siblings: Seq<SiblingView>,
    repository: Seq<char>,
    revision: Seq<char>,
    directory: Seq<PartView>,
    files: Seq<PlannedView>,
)
    ensures
        match planned_downloads(siblings, repository, revision, directory, files) {
            Ok(downloads) => downloads.len() == files.len() && forall|i: int|
                0 <= i < files.len() ==> planned_download(
                    siblings,
                    repository,
                    revision,
                    directory,
                    #[trigger] files[i],
                ) == Ok::<ResolvedFileView, LibraryErrorView>(downloads[i]),
            Err(error) => exists|i: int|
                0 <= i < files.len() && planned_download(
                    siblings,
                    repository,
                    revision,
                    directory,
                    #[trigger] files[i],
                ) == Err::<ResolvedFileView, LibraryErrorView>(error),
        },
    decreases files.len(),
{
    if files.len() > 0 {
        let rest = files.drop_last();
        law_packages_are_downloaded_whole(siblings, repository, revision, directory, rest);
        assert(forall|i: int| 0 <= i < rest.len() ==> rest[i] == files[i]);
        assert(files[files.len() - 1] == files.last());
        match planned_downloads(siblings, repository, revision, directory, rest) {
            Ok(before) => {
                if let Ok(downloads) = planned_downloads(
                    siblings,
                    repository,
                    revision,
                    directory,
                    files,
                ) {
                    assert forall|i: int| 0 <= i < files.len() implies planned_download(
                        siblings,
                        repository,
                        revision,
                        directory,
                        #[trigger] files[i],
                    ) == Ok::<ResolvedFileView, LibraryErrorView>(downloads[i]) by {
                        if i < rest.len() {
                            assert(rest[i] == files[i]);
                            assert(downloads[i] == before[i]);
                        }
                    }
                }
            },
            Err(error) => {
                let i = choose|i: int|
                    0 <= i < rest.len() && planned_download(
                        siblings,
                        repository,
                        revision,
                        directory,
                        #[trigger] rest[i],
                    ) == Err::<ResolvedFileView, LibraryErrorView>(error);
                assert(files[i] == rest[i]);
            },
        }
    }
}

/// The primary files of a package are those that its plan calls primary.
pub proof fn law_primary_files_are_the_planned_ones(
    directory: Seq<PartView>,
    files: Seq<PlannedView>,
    name: Seq<char>,
)
    ensures
        primary_names(directory, files).contains(name) <==> exists|i: int|
            0 <= i < files.len() && (#[trigger] files[i]).role == PackageRole::Primary && below(
                directory,
                files[i].path,
            ) == name,
    decreases files.len(),
{
    let all = primary_names(directory, files);
    if files.len() > 0 {
        let rest = files.drop_last();
        let some = primary_names(directory, rest);
        law_primary_files_are_the_planned_ones(directory, rest, name);
        assert(files[files.len() - 1] == files.last());
        if some.contains(name) {
            let i = choose|i: int|
                0 <= i < rest.len() && (#[trigger] rest[i]).role == PackageRole::Primary && below(
                    directory,
                    rest[i].path,
                ) == name;
            assert(files[i] == rest[i]);
            assert(all[some.index_of(name)] == name);
        }
        if files.last().role == PackageRole::Primary {
            assert(all[all.len() - 1] == below(directory, files.last().path));
            if all.contains(name) && name != below(directory, files.last().path) {
                assert(some[all.index_of(name)] == name);
            }
        }
        if exists|i: int|
            0 <= i < files.len() && (#[trigger] files[i]).role == PackageRole::Primary && below(
                directory,
                files[i].path,
            ) == name {
            let i = choose|i: int|
                0 <= i < files.len() && (#[trigger] files[i]).role == PackageRole::Primary && below(
                    directory,
                    files[i].path,
                ) == name;
            if i < rest.len() {
                assert(rest[i] == files[i]);
            }
        }
    } else {
        assert(!all.contains(name));
    }
}

/// A manifest that does not speak of the artifact is passed over, also where it is broken; one that is
/// broken and claims it is an error, and so is one that does not call it primary. Otherwise the artifact
/// is downloaded with all the files of the plan.
pub proof fn law_manifests_decide_about_their_files(
    siblings: Seq<SiblingView>,
    repository: Seq<char>,
    revision: Seq<char>,
    filename: Seq<char>,
    depth: int,
    manifest: Seq<char>,
    files: Seq<PlannedView>,
    error: Seq<char>,
)
    ensures
        ({
            let told = |plan: ManifestPlanView|
                considered(siblings, repository, revision, filename, depth, manifest, plan);
            let file = parts(filename);
            let planned = planned_at(files, file.skip(depth));
            let answer = told(ManifestPlanView::Valid(files));
            &&& told(ManifestPlanView::Invalid { error, claims_selected: true }) is Err
            &&& told(ManifestPlanView::Invalid { error, claims_selected: false }) == Ok::<
                Option<(ResolvedPackageView, Seq<ResolvedFileView>)>,
                LibraryErrorView,
            >(None)
            &&& planned is None ==> answer == Ok::<
                Option<(ResolvedPackageView, Seq<ResolvedFileView>)>,
                LibraryErrorView,
            >(None)
            &&& planned is Some && planned->0.role != PackageRole::Primary ==> answer is Err
            &&& answer matches Ok(Some((package, downloads))) ==> planned is Some
                && planned->0.role == PackageRole::Primary && package.manifest_filename == manifest
                && package.primary_filenames == primary_names(file.take(depth), files)
                && planned_downloads(siblings, repository, revision, file.take(depth), files)
                == Ok::<Seq<ResolvedFileView>, LibraryErrorView>(downloads)
            &&& planned is Some && planned->0.role == PackageRole::Primary && planned_downloads(
                siblings,
                repository,
                revision,
                file.take(depth),
                files,
            ) is Ok ==> answer is Ok && answer->Ok_0 is Some
        }),
{
}

/// An artifact of a package is downloaded with the other files of the package: it is the file that was
/// asked for, and together they are the files of the package.
pub proof fn law_packaged_artifacts_come_with_their_package(
    reference: ReferenceView,
    revision: Seq<char>,
    format: Seq<char>,
    package: ResolvedPackageView,
    files: Seq<ResolvedFileView>,
)
    ensures
        match packaged(reference, revision, format, package, files) {
            Ok(artifact) => {
                &&& artifact.primary.filename == reference.filename
                &&& artifact.companions.to_multiset().insert(artifact.primary)
                    == files.to_multiset()
                &&& artifact.package == Some(package)
                &&& artifact.repository == reference.repository
                &&& artifact.revision == revision
                &&& artifact.format == format
            },
            Err(_) => forall|i: int|
                0 <= i < files.len() ==> (#[trigger] files[i]).filename != reference.filename,
        },
{
    broadcast use vstd::seq_lib::group_to_multiset_ensures;

    lemma_download_at(files, reference.filename);
    if let Some(at) = download_at(files, reference.filename) {
        files.to_multiset_ensures();
        assert(files.remove(at).insert(at, files[at]) =~= files);
        assert(files.remove(at).to_multiset().insert(files[at]) =~= files.to_multiset());
    }
}

proof fn lemma_download_at(files: Seq<ResolvedFileView>, filename: Seq<char>)
    ensures
        match download_at(files, filename) {
            Some(at) => 0 <= at < files.len() && files[at].filename == filename,
            None => forall|i: int|
                0 <= i < files.len() ==> (#[trigger] files[i]).filename != filename,
        },
    decreases files.len(),
{
    if files.len() > 0 {
        let rest = files.drop_last();
        lemma_download_at(rest, filename);
        assert(forall|i: int| 0 <= i < rest.len() ==> rest[i] == files[i]);
        if download_at(files, filename) is None {
            assert forall|i: int| 0 <= i < files.len() implies (#[trigger] files[i]).filename
                != filename by {
                if i < rest.len() {
                    assert(rest[i].filename != filename);
                }
            }
        }
    }
}

/// An artifact without a package is the file that was asked for, alone; only one of q27 comes with its
/// tokenizer, and is refused without one.
pub proof fn law_single_artifacts(
    reference: ReferenceView,
    siblings: Seq<SiblingView>,
    revision: Seq<char>,
    format: Seq<char>,
    tokenizer: Result<Option<Seq<char>>, Seq<char>>,
)
    ensures
        match alone(reference, siblings, revision, format, tokenizer) {
            Ok(artifact) => {
                &&& artifact.primary.filename == reference.filename
                &&& artifact.package is None
                &&& artifact.revision == revision
                &&& artifact.repository == reference.repository
                &&& artifact.format == format
                &&& format != "q27"@ ==> artifact.companions.len() == 0
                &&& format == "q27"@ ==> artifact.companions.len() == 1 && tokenizer is Ok
                    && tokenizer->Ok_0 == Some(artifact.companions[0].filename)
            },
            Err(_) => true,
        },
        format == "q27"@ && (tokenizer is Err || tokenizer->Ok_0 is None) ==> alone(
            reference,
            siblings,
            revision,
            format,
            tokenizer,
        ) is Err,
        (forall|i: int|
            0 <= i < siblings.len() ==> (#[trigger] siblings[i]).rfilename != reference.filename)
            ==> alone(reference, siblings, revision, format, tokenizer) is Err,
{
    law_files_are_found_by_name(siblings, reference.filename);
    if tokenizer is Ok && tokenizer->Ok_0 is Some {
        law_files_are_found_by_name(siblings, tokenizer->Ok_0->0);
    }
}

/// The commit that the hub names is taken before the revision that was asked for; a file that the
/// repository does not have, or that is of no known format, is refused.
pub proof fn law_resolution_begins_at_the_commit(
    reference: ReferenceView,
    sha: Option<Seq<char>>,
    siblings: Seq<SiblingView>,
    format: Option<Seq<char>>,
)
    ensures
        match begun(reference, sha, siblings, format) {
            Ok((revision, known)) => {
                &&& sha is Some ==> revision == sha->0
                &&& sha is None ==> revision == reference.revision
                &&& format == Some(known)
                &&& exists|i: int|
                    0 <= i < siblings.len() && (#[trigger] siblings[i]).rfilename
                        == reference.filename
            },
            Err(_) => format is None || forall|i: int|
                0 <= i < siblings.len() ==> (#[trigger] siblings[i]).rfilename
                    != reference.filename,
        },
{
}

/// A file is listed exactly where its format is known and wanted and, for one of q27 outside of a
/// package, where its tokenizer is known; it is listed under its own name, with its size and digest, and
/// with the tokenizer that it needs.
pub proof fn law_listed_files(
    id: Seq<char>,
    revision: Seq<char>,
    siblings: Seq<SiblingView>,
    sibling: SiblingView,
    facts: FactsView,
    filter: Option<Seq<char>>,
)
    ensures
        ({
            let entry = catalog_entry(id, revision, siblings, sibling, facts, filter);
            let manifest = nearest_manifest(siblings, sibling.rfilename, facts.manifest_name);
            let lone = facts.format == Some("q27"@) && manifest is None;
            &&& entry is Some <==> facts.format is Some && (filter is None || filter == facts.format)
                && (lone ==> facts.tokenizer is Some)
            &&& entry is Some ==> {
                &&& entry->0.filename == sibling.rfilename
                &&& facts.format == Some(entry->0.format)
                &&& entry->0.size_bytes == sibling.file_size()
                &&& entry->0.sha256 == sibling.digest()
                &&& entry->0.package_manifest == manifest
                &&& entry->0.model_ref == written_reference(id, revision, sibling.rfilename)
                &&& lone ==> entry->0.required_companions == seq![facts.tokenizer->0]
                &&& !lone ==> entry->0.required_companions.len() == 0
            }
        }),
{
}

} // verus!
