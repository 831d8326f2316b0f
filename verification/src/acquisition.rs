//! Downloads of the files of an artifact, and what is recorded of them.
use vstd::prelude::*;
use vstd::string::*;

use crate::downloads::{
    ModelDownloadJobId, ModelOperationPhase, ModelOperationProgress, OperationView,
    DEFAULT_MAX_PARALLEL_DOWNLOADS,
};
use crate::duplicate::{duplicate_option, lemma_views_push, optional, views, Duplicate};
use crate::hub::{
    PackageRole, PlannedFile, PlannedView, ResolvedArtifact, ResolvedArtifactView, ResolvedFile,
    ResolvedFileView,
};
use crate::inference::{SettingValue, SettingView};
use crate::outside::{is_hyphenated, random_identifier};
use crate::provenance::text_digest;
use crate::paths::{is_safe, parts, same_path, slash_path, slashed, PartView};
use crate::receipts::{
    MemberView, ModelArtifactProvenance, ModelLibraryReceiptMember, OriginView, ReceiptView,
};
use crate::references::{
    destination, download_partial_name, managed_destination, remote_acquisition_id,
    safe_remote_path, LibraryErrorView, ModelLibraryError,
};
use crate::table::Table;
use crate::text::{
    ascii_lower, cat2, cat3, cat5, cat6, cat7, decimal, decimal_text, join, joined, same,
    same_ignoring_case,
};
use crate::updates::referenced;

verus! {

/// How far the download of a file is.
#[derive(Debug, Clone, Copy, PartialEq, Eq, Structural)]
pub enum FetchStage {
    Looking,
    Asking,
    Receiving,
    Checking,
    Ready,
}

/// The download of a file of an acquisition.
#[derive(Debug)]
pub struct Fetch {
    file: ResolvedFile,
    before: u64,
    total: Option<u64>,
    stage: FetchStage,
    existing: u64,
    downloaded: u64,
    digest: Option<String>,
}

#[verifier::ext_equal]
pub struct FetchView {
    pub file: ResolvedFileView,
    pub before: u64,
    pub total: Option<u64>,
    pub stage: FetchStage,
    pub existing: u64,
    pub downloaded: u64,
    pub digest: Option<Seq<char>>,
}

impl View for Fetch {
    type V = FetchView;

    closed spec fn view(&self) -> FetchView {
        FetchView {
            file: self.file@,
            before: self.before,
            total: self.total,
            stage: self.stage,
            existing: self.existing,
            downloaded: self.downloaded,
            digest: optional(self.digest),
        }
    }
}

/// What to do first with what is there of a file.
#[derive(Debug, PartialEq, Eq)]
pub enum FetchStart {
    /// It is complete: compute its digest.
    Digest,
    /// It is complete, and there is no digest to hold it against.
    Keep,
    /// Ask for the file, from a byte on where some of it is there.
    Ask { discard: bool, range: Option<String> },
}

#[verifier::ext_equal]
pub enum StartView {
    Digest,
    Keep,
    Ask { discard: bool, range: Option<Seq<char>> },
}

impl View for FetchStart {
    type V = StartView;

    open spec fn view(&self) -> StartView {
        match self {
            FetchStart::Digest => StartView::Digest,
            FetchStart::Keep => StartView::Keep,
            FetchStart::Ask { discard, range } => StartView::Ask {
                discard: *discard,
                range: optional(*range),
            },
        }
    }
}

impl FetchView {
    /// What holds at every time: what was counted can be reported, and a file that is ready has the size
    /// and the digest that were expected of it.
    pub open spec fn sound(self) -> bool {
        &&& self.before + self.downloaded <= u64::MAX
        &&& self.before + self.existing <= u64::MAX
        &&& (self.stage == FetchStage::Checking || self.stage == FetchStage::Ready) ==> (
        self.file.size_bytes is Some ==> self.file.size_bytes == Some(self.downloaded))
        &&& self.stage == FetchStage::Checking ==> self.file.sha256 is Some
        &&& self.stage == FetchStage::Ready && self.file.sha256 is Some ==> self.digest is Some
            && ascii_lower(self.digest->0) == ascii_lower(self.file.sha256->0)
    }

    /// More than a file can have is of no use.
    pub open spec fn is_too_long(self, existing: u64) -> bool {
        self.file.size_bytes is Some && existing > self.file.size_bytes->0
    }

    /// What is looked at first: what is there of the file.
    pub open spec fn looked(self, existing: u64) -> (FetchView, StartView) {
        let kept = if self.is_too_long(existing) {
            0
        } else {
            existing
        };
        if self.file.size_bytes == Some(kept) && kept > 0 {
            if self.file.sha256 is Some {
                (
                    FetchView { stage: FetchStage::Checking, existing: kept, downloaded: kept, ..self },
                    StartView::Digest,
                )
            } else {
                (
                    FetchView { stage: FetchStage::Ready, existing: kept, downloaded: kept, ..self },
                    StartView::Keep,
                )
            }
        } else {
            (
                FetchView { stage: FetchStage::Asking, existing: kept, ..self },
                StartView::Ask {
                    discard: self.is_too_long(existing),
                    range: if kept > 0 {
                        Some("bytes="@ + decimal(kept as nat) + "-"@)
                    } else {
                        None
                    },
                },
            )
        }
    }

    /// What is there is gone on with only where the answer begins after it.
    pub open spec fn answered(self, partial: bool) -> FetchView {
        FetchView {
            stage: FetchStage::Receiving,
            downloaded: if self.existing > 0 && partial {
                self.existing
            } else {
                0
            },
            ..self
        }
    }

    /// Why a file that came to its end is refused.
    pub open spec fn size_refusal(self) -> Option<LibraryErrorView> {
        if self.file.size_bytes is Some && self.downloaded != self.file.size_bytes->0 {
            Some(
                LibraryErrorView::InvalidArtifact(
                    self.file.filename + " has "@ + decimal(self.downloaded as nat)
                        + " bytes; expected "@ + decimal(self.file.size_bytes->0 as nat),
                ),
            )
        } else {
            None
        }
    }

    /// A file that came to its end is checked, or is ready where there is nothing to check.
    pub open spec fn ended(self) -> FetchView {
        FetchView {
            stage: if self.file.sha256 is Some {
                FetchStage::Checking
            } else {
                FetchStage::Ready
            },
            ..self
        }
    }

    /// What a digest shows: digits are compared without case.
    pub open spec fn digested(self, observed: Seq<char>) -> Result<FetchView, LibraryErrorView> {
        if self.file.sha256 is Some && ascii_lower(observed) != ascii_lower(self.file.sha256->0) {
            Err(
                LibraryErrorView::DigestMismatch {
                    filename: self.file.filename,
                    expected: self.file.sha256->0,
                    observed,
                },
            )
        } else {
            Ok(FetchView { stage: FetchStage::Ready, digest: Some(observed), ..self })
        }
    }
}

impl Duplicate for ResolvedFile {
    fn duplicate(&self) -> (result: ResolvedFile) {
        ResolvedFile {
            filename: self.filename.clone(),
            url: self.url.clone(),
            size_bytes: self.size_bytes,
            sha256: duplicate_option(&self.sha256),
        }
    }
}

impl Fetch {
    pub fn new(file: &ResolvedFile, completed_before: u64, total: Option<u64>) -> (result: Fetch)
        ensures
            result@ == (FetchView {
                file: file@,
                before: completed_before,
                total,
                stage: FetchStage::Looking,
                existing: 0,
                downloaded: 0,
                digest: None,
            }),
            result@.sound(),
    {
        Fetch {
            file: file.duplicate(),
            before: completed_before,
            total,
            stage: FetchStage::Looking,
            existing: 0,
            downloaded: 0,
            digest: None,
        }
    }

    pub fn stage(&self) -> (result: FetchStage)
        ensures
            result == self@.stage,
    {
        self.stage
    }

    /// How many bytes of the file there are.
    pub fn bytes(&self) -> (result: u64)
        ensures
            result == self@.downloaded,
    {
        self.downloaded
    }

    pub fn look(&mut self, existing: u64) -> (result: FetchStart)
        requires
            old(self)@.sound(),
            old(self)@.stage == FetchStage::Looking,
            old(self)@.before + existing <= u64::MAX,
        ensures
            (final(self)@, result@) == old(self)@.looked(existing),
            final(self)@.sound(),
    {
        let discard = match self.file.size_bytes {
            Some(size) => existing > size,
            None => false,
        };
        let kept: u64 = if discard {
            0
        } else {
            existing
        };
        self.existing = kept;
        let complete = match self.file.size_bytes {
            Some(size) => size == kept && kept > 0,
            None => false,
        };
        if complete {
            self.downloaded = kept;
            if self.file.sha256.is_some() {
                self.stage = FetchStage::Checking;
                FetchStart::Digest
            } else {
                self.stage = FetchStage::Ready;
                FetchStart::Keep
            }
        } else {
            self.stage = FetchStage::Asking;
            let range = if kept > 0 {
                Some(cat3("bytes=", decimal_text(kept).as_str(), "-"))
            } else {
                None
            };
            FetchStart::Ask { discard, range }
        }
    }

    /// Takes the answer, and says whether what comes is to be appended to what is there.
    pub fn answer(&mut self, partial: bool) -> (append: bool)
        requires
            old(self)@.sound(),
            old(self)@.stage == FetchStage::Asking,
        ensures
            final(self)@ == old(self)@.answered(partial),
            final(self)@.sound(),
            append == (old(self)@.existing > 0 && partial),
    {
        let append = self.existing > 0 && partial;
        self.downloaded = if append {
            self.existing
        } else {
            0
        };
        self.stage = FetchStage::Receiving;
        append
    }

    pub fn receive(&mut self, bytes: u64)
        requires
            old(self)@.sound(),
            old(self)@.stage == FetchStage::Receiving,
            old(self)@.before + old(self)@.downloaded + bytes <= u64::MAX,
        ensures
            final(self)@ == (FetchView {
                downloaded: (old(self)@.downloaded + bytes) as u64,
                ..old(self)@
            }),
            final(self)@.sound(),
    {
        self.downloaded = self.downloaded + bytes;
    }

    /// Ends the transfer, and says whether the digest is to be computed.
    pub fn end(&mut self) -> (result: Result<bool, ModelLibraryError>)
        requires
            old(self)@.sound(),
            old(self)@.stage == FetchStage::Receiving,
        ensures
            match (result, old(self)@.size_refusal()) {
                (Err(error), Some(expected)) => error@ == expected && final(self)@ == old(self)@,
                (Ok(digest), None) => final(self)@ == old(self)@.ended() && digest == (old(
                    self,
                )@.file.sha256 is Some),
                _ => false,
            },
            final(self)@.sound(),
    {
        match self.file.size_bytes {
            Some(size) => {
                if self.downloaded != size {
                    return Err(
                        ModelLibraryError::InvalidArtifact(
                            cat5(
                                self.file.filename.as_str(),
                                " has ",
                                decimal_text(self.downloaded).as_str(),
                                " bytes; expected ",
                                decimal_text(size).as_str(),
                            ),
                        ),
                    );
                }
            },
            None => {},
        }
        let digest = self.file.sha256.is_some();
        self.stage = if digest {
            FetchStage::Checking
        } else {
            FetchStage::Ready
        };
        Ok(digest)
    }

    /// Takes the digest of the file. Where it is not the one that was expected, the file is of no use.
    pub fn check(&mut self, observed: String) -> (result: Result<(), ModelLibraryError>)
        requires
            old(self)@.sound(),
            old(self)@.stage == FetchStage::Checking,
        ensures
            match (result, old(self)@.digested(observed@)) {
                (Ok(_), Ok(expected)) => final(self)@ == expected,
                (Err(error), Err(expected)) => error@ == expected && final(self)@ == old(self)@,
                _ => false,
            },
            final(self)@.sound(),
    {
        match &self.file.sha256 {
            Some(expected) => {
                if !same_ignoring_case(observed.as_str(), expected.as_str()) {
                    return Err(
                        ModelLibraryError::DigestMismatch {
                            filename: self.file.filename.clone(),
                            expected: expected.clone(),
                            observed,
                        },
                    );
                }
            },
            None => {},
        }
        self.digest = Some(observed);
        self.stage = FetchStage::Ready;
        Ok(())
    }

    /// How the transfer is reported: what was there before and what came of this file, and once it came to
    /// its end what is verified.
    pub fn report(&self, context: &ProgressContext) -> (result: ModelOperationProgress)
        requires
            self@.sound(),
        ensures
            result@ == context@.progress(
                self@.file.filename,
                if self@.stage == FetchStage::Receiving {
                    ModelOperationPhase::Downloading
                } else {
                    ModelOperationPhase::Verifying
                },
                (self@.before + self@.downloaded) as u64,
                self@.total,
                if self@.stage == FetchStage::Receiving {
                    "Downloading model data"@
                } else if self@.file.sha256 is Some {
                    "Verifying SHA-256"@
                } else {
                    "Verifying downloaded size"@
                },
            ),
    {
        let receiving = match self.stage {
            FetchStage::Receiving => true,
            _ => false,
        };
        context.emit(
            self.file.filename.as_str(),
            if receiving {
                ModelOperationPhase::Downloading
            } else {
                ModelOperationPhase::Verifying
            },
            self.before + self.downloaded,
            self.total,
            if receiving {
                "Downloading model data"
            } else if self.file.sha256.is_some() {
                "Verifying SHA-256"
            } else {
                "Verifying downloaded size"
            },
        )
    }
}

/// What all reports of a download say.
#[derive(Debug)]
pub struct ProgressContext {
    pub job_id: ModelDownloadJobId,
    pub model_ref: String,
    pub provider: Option<String>,
    pub repository: Option<String>,
}

#[verifier::ext_equal]
pub struct ContextView {
    pub job_id: Seq<char>,
    pub model_ref: Seq<char>,
    pub provider: Option<Seq<char>>,
    pub repository: Option<Seq<char>>,
}

impl View for ProgressContext {
    type V = ContextView;

    open spec fn view(&self) -> ContextView {
        ContextView {
            job_id: self.job_id@,
            model_ref: self.model_ref@,
            provider: optional(self.provider),
            repository: optional(self.repository),
        }
    }
}

impl ContextView {
    pub open spec fn progress(
        self,
        filename: Seq<char>,
        phase: ModelOperationPhase,
        downloaded_bytes: u64,
        total_bytes: Option<u64>,
        message: Seq<char>,
    ) -> OperationView {
        OperationView {
            job_id: self.job_id,
            model_ref: self.model_ref,
            provider: self.provider,
            repository: self.repository,
            filename,
            phase,
            downloaded_bytes,
            total_bytes,
            message,
        }
    }
}

impl ProgressContext {
    pub fn emit(
        &self,
        filename: &str,
        phase: ModelOperationPhase,
        downloaded_bytes: u64,
        total_bytes: Option<u64>,
        message: &str,
    ) -> (result: ModelOperationProgress)
        ensures
            result@ == self@.progress(
                filename@,
                phase,
                downloaded_bytes,
                total_bytes,
                message@,
            ),
    {
        ModelOperationProgress {
            job_id: self.job_id.duplicate(),
            model_ref: self.model_ref.clone(),
            provider: duplicate_option(&self.provider),
            repository: duplicate_option(&self.repository),
            filename: filename.to_owned(),
            phase,
            downloaded_bytes,
            total_bytes,
            message: message.to_owned(),
        }
    }
}

/// The report that a reference is being resolved.
pub fn resolving(job_id: &ModelDownloadJobId, model_ref: &str) -> (result: ModelOperationProgress)
    ensures
        result@ == (ContextView {
            job_id: job_id@,
            model_ref: model_ref@,
            provider: None,
            repository: None,
        }).progress(
            ""@,
            ModelOperationPhase::Resolving,
            0,
            None,
            "Resolving exact artifact"@,
        ),
{
    let context = ProgressContext {
        job_id: job_id.duplicate(),
        model_ref: model_ref.to_owned(),
        provider: None,
        repository: None,
    };
    context.emit("", ModelOperationPhase::Resolving, 0, None, "Resolving exact artifact")
}

impl ResolvedArtifactView {
    /// The file that was asked for, then those that go with it.
    pub open spec fn files(self) -> Seq<ResolvedFileView> {
        seq![self.primary] + self.companions
    }

    /// What the acquisition is known by: the manifest of its package, else the file itself.
    pub open spec fn identity(self) -> Seq<char> {
        match self.package {
            Some(package) => package.manifest_filename,
            None => self.primary.filename,
        }
    }

    pub open spec fn acquisition_id(self) -> Seq<char> {
        self.provider + ":"@ + self.repository + "@"@ + self.revision + ":"@ + self.identity()
    }
}

/// The bytes of the files whose size is known.
pub open spec fn known_bytes(files: Seq<ResolvedFileView>) -> nat
    decreases files.len(),
{
    if files.len() == 0 {
        0
    } else {
        known_bytes(files.drop_last()) + match files.last().size_bytes {
            Some(size) => size as nat,
            None => 0,
        }
    }
}

/// Whether the sizes of all files are known.
pub open spec fn all_known(files: Seq<ResolvedFileView>) -> bool {
    forall|i: int| 0 <= i < files.len() ==> (#[trigger] files[i]).size_bytes is Some
}

impl ResolvedArtifact {
    fn identity(&self) -> (result: &str)
        ensures
            result@ == self@.identity(),
    {
        match &self.package {
            Some(package) => package.manifest_filename.as_str(),
            None => self.primary.filename.as_str(),
        }
    }

    /// Where the acquisition is kept, from the root of the library.
    pub fn destination(&self) -> (result: Result<Vec<String>, ModelLibraryError>)
        ensures
            match (result, destination(self@.repository, self@.revision, self@.identity())) {
                (Ok(path), Ok(expected)) => views(path@) == expected,
                (Err(error), Err(expected)) => error@ == expected,
                _ => false,
            },
    {
        managed_destination(self.repository.as_str(), self.revision.as_str(), self.identity())
    }

    pub fn acquisition_id(&self) -> (result: String)
        ensures
            result@ == self@.acquisition_id(),
    {
        remote_acquisition_id(
            self.provider.as_str(),
            self.repository.as_str(),
            self.revision.as_str(),
            self.identity(),
        )
    }

    /// The names of the files that unfinished downloads are kept in, one for each file.
    pub fn partial_names(&self, model_ref: &str) -> (result: Vec<String>)
        ensures
            views(result@) == Seq::new(
                self@.files().len(),
                |i: int| text_digest(model_ref@ + "\0"@ + self@.files()[i].url) + ".part"@,
            ),
    {
        let ghost files = self@.files();
        let ghost expected = Seq::new(
            files.len(),
            |i: int| text_digest(model_ref@ + "\0"@ + files[i].url) + ".part"@,
        );
        let mut result: Vec<String> = Vec::new();
        let first = download_partial_name(model_ref, self.primary.url.as_str());
        proof {
            lemma_views_push(result@, first);
            assert(files[0] == self@.primary);
        }
        result.push(first);
        let mut i: usize = 0;
        proof {
            assert(views(result@) =~= expected.take(1));
        }
        while i < self.companions.len()
            invariant
                i <= self.companions@.len(),
                files == self@.files(),
                files.len() == self.companions@.len() + 1,
                expected == Seq::new(
                    files.len(),
                    |k: int| text_digest(model_ref@ + "\0"@ + files[k].url) + ".part"@,
                ),
                views(result@) == expected.take(i + 1),
            decreases self.companions@.len() - i,
        {
            let name = download_partial_name(model_ref, self.companions[i].url.as_str());
            proof {
                lemma_views_push(result@, name);
                assert(self@.companions[i as int] == self.companions@[i as int]@);
                assert(files[i + 1] == self@.companions[i as int]);
                assert(expected.take(i + 2) =~= expected.take(i + 1).push(expected[i + 1]));
            }
            result.push(name);
            i += 1;
        }
        proof {
            assert(expected.take(expected.len() as int) =~= expected);
        }
        result
    }

    /// The bytes of the files whose size is known, if they can be counted, and whether all are known.
    pub fn count_bytes(&self) -> (result: (Option<u64>, bool))
        ensures
            match result.0 {
                Some(bytes) => bytes == known_bytes(self@.files()),
                None => known_bytes(self@.files()) > u64::MAX,
            },
            result.1 == all_known(self@.files()),
    {
        let ghost files = self@.files();
        let mut sum: Option<u64> = Some(
            match self.primary.size_bytes {
                Some(size) => size,
                None => 0,
            },
        );
        let mut known = self.primary.size_bytes.is_some();
        let mut i: usize = 0;
        proof {
            assert(files[0] == self@.primary);
            assert(files.take(1).drop_last() =~= Seq::empty());
            assert(files.take(1).last() == self@.primary);
            assert(known_bytes(files.take(1).drop_last()) == 0);
        }
        while i < self.companions.len()
            invariant
                i <= self.companions@.len(),
                files == self@.files(),
                files.len() == self.companions@.len() + 1,
                match sum {
                    Some(bytes) => bytes == known_bytes(files.take(i + 1)),
                    None => known_bytes(files.take(i + 1)) > u64::MAX,
                },
                known == forall|k: int|
                    0 <= k < i + 1 ==> (#[trigger] files[k]).size_bytes is Some,
            decreases self.companions@.len() - i,
        {
            proof {
                assert(self@.companions[i as int] == self.companions@[i as int]@);
                assert(files[i + 1] == self@.companions[i as int]);
                assert(files.take(i + 2).drop_last() =~= files.take(i + 1));
                assert(files.take(i + 2).last() == files[i + 1]);
            }
            match self.companions[i].size_bytes {
                Some(size) => {
                    sum =
                    match sum {
                        Some(bytes) => bytes.checked_add(size),
                        None => None,
                    };
                },
                None => {
                    known = false;
                    proof {
                        assert(files[i + 1].size_bytes is None);
                    }
                },
            }
            i += 1;
        }
        proof {
            assert(files.take(files.len() as int) =~= files);
        }
        (sum, known)
    }
}

/// An acquisition whose files are being downloaded.
#[derive(Debug)]
pub struct Acquisition {
    context: ProgressContext,
    primary: String,
    total: Option<u64>,
    completed: u64,
    accepted: Vec<String>,
}

#[verifier::ext_equal]
pub struct AcquisitionView {
    pub context: ContextView,
    pub primary: Seq<char>,
    pub total: Option<u64>,
    pub completed: u64,
    pub accepted: Seq<Seq<char>>,
}

impl View for Acquisition {
    type V = AcquisitionView;

    closed spec fn view(&self) -> AcquisitionView {
        AcquisitionView {
            context: self.context@,
            primary: self.primary@,
            total: self.total,
            completed: self.completed,
            accepted: views(self.accepted@),
        }
    }
}

/// A step of an acquisition that is reported of the file that was asked for.
#[derive(Debug, Clone, Copy, PartialEq, Eq, Structural)]
pub enum AcquisitionStep {
    Inspecting,
    Activating,
    Installed,
}

impl AcquisitionStep {
    pub open spec fn phase(self) -> ModelOperationPhase {
        match self {
            AcquisitionStep::Inspecting => ModelOperationPhase::Validating,
            AcquisitionStep::Activating => ModelOperationPhase::Installing,
            AcquisitionStep::Installed => ModelOperationPhase::Installed,
        }
    }

    pub open spec fn message(self) -> Seq<char> {
        match self {
            AcquisitionStep::Inspecting => "Inspecting downloaded artifact"@,
            AcquisitionStep::Activating => "Atomically activating model"@,
            AcquisitionStep::Installed => "Model installed"@,
        }
    }
}

/// Whether a path is one of a list.
pub open spec fn has_path(list: Seq<Seq<char>>, path: Seq<char>) -> bool {
    exists|k: int| 0 <= k < list.len() && parts(#[trigger] list[k]) == parts(path)
}

fn find_path(list: &Vec<String>, path: &str) -> (result: bool)
    ensures
        result == has_path(views(list@), path@),
{
    let ghost all = views(list@);
    let mut i: usize = 0;
    while i < list.len()
        invariant
            i <= list.len(),
            all == views(list@),
            forall|k: int| 0 <= k < i ==> parts(#[trigger] all[k]) != parts(path@),
        decreases list.len() - i,
    {
        proof {
            assert(all[i as int] == list@[i as int]@);
        }
        if same_path(list[i].as_str(), path) {
            return true;
        }
        i += 1;
    }
    false
}

impl AcquisitionView {
    /// Whether all accepted paths are safe, and no two are the same.
    pub open spec fn sound(self) -> bool {
        &&& forall|i: int| 0 <= i < self.accepted.len() ==> is_safe(#[trigger] self.accepted[i])
        &&& forall|i: int, j: int|
            0 <= i < j < self.accepted.len() ==> parts(#[trigger] self.accepted[i]) != parts(
                #[trigger] self.accepted[j],
            )
    }

    /// Why a file is not accepted.
    pub open spec fn refusal(self, filename: Seq<char>) -> Option<LibraryErrorView> {
        if !is_safe(filename) {
            Some(
                LibraryErrorView::InvalidCatalog("unsafe remote filename `"@ + filename + "`"@),
            )
        } else if has_path(self.accepted, filename) {
            Some(
                LibraryErrorView::InvalidCatalog(
                    "remote acquisition contains colliding path `"@ + filename + "`"@,
                ),
            )
        } else {
            None
        }
    }
}

impl Acquisition {
    /// Begins an acquisition whose known sizes can be counted.
    pub fn begin(
        job_id: &ModelDownloadJobId,
        model_ref: &str,
        resolved: &ResolvedArtifact,
    ) -> (result: Acquisition)
        requires
            known_bytes(resolved@.files()) <= u64::MAX,
        ensures
            result@ == (AcquisitionView {
                context: ContextView {
                    job_id: job_id@,
                    model_ref: model_ref@,
                    provider: Some(resolved@.provider),
                    repository: Some(resolved@.repository),
                },
                primary: resolved@.primary.filename,
                total: if all_known(resolved@.files()) {
                    Some(known_bytes(resolved@.files()) as u64)
                } else {
                    None
                },
                completed: 0,
                accepted: Seq::empty(),
            }),
            result@.sound(),
    {
        let (bytes, known) = resolved.count_bytes();
        let accepted: Vec<String> = Vec::new();
        proof {
            assert(views(accepted@) =~= Seq::empty());
        }
        Acquisition {
            context: ProgressContext {
                job_id: job_id.duplicate(),
                model_ref: model_ref.to_owned(),
                provider: Some(resolved.provider.clone()),
                repository: Some(resolved.repository.clone()),
            },
            primary: resolved.primary.filename.clone(),
            total: if known {
                bytes
            } else {
                None
            },
            completed: 0,
            accepted,
        }
    }

    pub fn context(&self) -> (result: &ProgressContext)
        ensures
            result@ == self@.context,
    {
        &self.context
    }

    /// Accepts a file, and gives its path below the stage.
    pub fn accept(&mut self, filename: &str) -> (result: Result<String, ModelLibraryError>)
        requires
            old(self)@.sound(),
        ensures
            match (result, old(self)@.refusal(filename@)) {
                (Ok(path), None) => path@ == filename@ && final(self)@ == (AcquisitionView {
                    accepted: old(self)@.accepted.push(filename@),
                    ..old(self)@
                }),
                (Err(error), Some(expected)) => error@ == expected && final(self)@ == old(self)@,
                _ => false,
            },
            final(self)@.sound(),
    {
        let path = match safe_remote_path(filename) {
            Ok(path) => path,
            Err(error) => {
                return Err(error);
            },
        };
        if find_path(&self.accepted, filename) {
            return Err(
                ModelLibraryError::InvalidCatalog(
                    cat3("remote acquisition contains colliding path `", filename, "`"),
                ),
            );
        }
        let kept = path.clone();
        proof {
            lemma_views_push(self.accepted@, kept);
        }
        self.accepted.push(kept);
        Ok(path)
    }

    /// Begins the download of a file.
    pub fn fetch(&self, file: &ResolvedFile) -> (result: Fetch)
        ensures
            result@ == (FetchView {
                file: file@,
                before: self@.completed,
                total: self@.total,
                stage: FetchStage::Looking,
                existing: 0,
                downloaded: 0,
                digest: None,
            }),
            result@.sound(),
    {
        Fetch::new(file, self.completed, self.total)
    }

    /// Counts a file that is ready.
    pub fn complete(&mut self, fetch: &Fetch)
        requires
            old(self)@.sound(),
            fetch@.sound(),
            fetch@.before == old(self)@.completed,
        ensures
            final(self)@ == (AcquisitionView {
                completed: (old(self)@.completed + fetch@.downloaded) as u64,
                ..old(self)@
            }),
            final(self)@.sound(),
    {
        self.completed = self.completed + fetch.downloaded;
    }

    pub fn report(&self, step: AcquisitionStep) -> (result: ModelOperationProgress)
        ensures
            result@ == self@.context.progress(
                self@.primary,
                step.phase(),
                self@.completed,
                self@.total,
                step.message(),
            ),
    {
        let (phase, message) = match step {
            AcquisitionStep::Inspecting => (
                ModelOperationPhase::Validating,
                "Inspecting downloaded artifact",
            ),
            AcquisitionStep::Activating => (
                ModelOperationPhase::Installing,
                "Atomically activating model",
            ),
            AcquisitionStep::Installed => (ModelOperationPhase::Installed, "Model installed"),
        };
        self.context.emit(self.primary.as_str(), phase, self.completed, self.total, message)
    }

    /// The report that the artifact is there already.
    pub fn report_present(&self, size_bytes: u64) -> (result: ModelOperationProgress)
        ensures
            result@ == self@.context.progress(
                self@.primary,
                ModelOperationPhase::Installed,
                size_bytes,
                Some(size_bytes),
                "Already installed"@,
            ),
    {
        self.context.emit(
            self.primary.as_str(),
            ModelOperationPhase::Installed,
            size_bytes,
            Some(size_bytes),
            "Already installed",
        )
    }
}

/// The name of a directory that an acquisition is staged in.
pub fn stage_name() -> (result: String)
    ensures
        exists|identifier: Seq<char>|
            #[trigger] is_hyphenated(identifier) && result@ == "stage-"@ + identifier,
{
    let identifier = random_identifier();
    cat2("stage-", identifier.as_str())
}

/// What is seen of a file of a package in its stage.
pub open spec fn package_file_refusal(file: PlannedView, is_file: bool, size: u64) -> Option<
    LibraryErrorView,
> {
    if !is_file {
        Some(
            LibraryErrorView::InvalidArtifact(
                "package member "@ + file.path + " is not a regular file"@,
            ),
        )
    } else if file.size_bytes is Some && file.size_bytes->0 != size {
        Some(
            LibraryErrorView::InvalidArtifact(
                "package member "@ + file.path + " has "@ + decimal(size as nat)
                    + " bytes; expected "@ + decimal(file.size_bytes->0 as nat),
            ),
        )
    } else {
        None
    }
}

/// Holds what is seen of a file against the package, and says whether its digest is to be computed.
pub fn check_package_file(file: &PlannedFile, is_file: bool, size: u64) -> (result: Result<
    bool,
    ModelLibraryError,
>)
    ensures
        match (result, package_file_refusal(file@, is_file, size)) {
            (Ok(digest), None) => digest == (file@.sha256 is Some),
            (Err(error), Some(expected)) => error@ == expected,
            _ => false,
        },
{
    if !is_file {
        return Err(
            ModelLibraryError::InvalidArtifact(
                cat3("package member ", file.path.as_str(), " is not a regular file"),
            ),
        );
    }
    match file.size_bytes {
        Some(expected) => {
            if expected != size {
                return Err(
                    ModelLibraryError::InvalidArtifact(
                        cat6(
                            "package member ",
                            file.path.as_str(),
                            " has ",
                            decimal_text(size).as_str(),
                            " bytes; expected ",
                            decimal_text(expected).as_str(),
                        ),
                    ),
                );
            }
        },
        None => {},
    }
    Ok(file.sha256.is_some())
}

/// Holds the digest of a file of a package against the one that its manifest gives, digit for digit.
pub fn check_package_digest(file: &PlannedFile, observed: &str) -> (result: Result<
    (),
    ModelLibraryError,
>)
    ensures
        match (result, file@.sha256) {
            (Ok(_), Some(expected)) => expected == observed@,
            (Ok(_), None) => true,
            (Err(error), Some(expected)) => expected != observed@ && error@
                == (LibraryErrorView::DigestMismatch {
                filename: slashed(file@.path),
                expected,
                observed: observed@,
            }),
            (Err(_), None) => false,
        },
{
    match &file.sha256 {
        Some(expected) => {
            if same(expected.as_str(), observed) {
                Ok(())
            } else {
                Err(
                    ModelLibraryError::DigestMismatch {
                        filename: slash_path(file.path.as_str()),
                        expected: expected.clone(),
                        observed: observed.to_owned(),
                    },
                )
            }
        },
        None => Ok(()),
    }
}

/// An artifact that is discovered in a stage: its path below the root of its package and below the
/// stage, where it lies in them.
#[derive(Debug)]
pub struct StagedArtifact {
    pub packaged: bool,
    pub in_package: Option<String>,
    pub in_stage: Option<String>,
    pub format: String,
    pub size_bytes: u64,
}

#[verifier::ext_equal]
pub struct StagedView {
    pub packaged: bool,
    pub in_package: Option<Seq<char>>,
    pub in_stage: Option<Seq<char>>,
    pub format: Seq<char>,
    pub size_bytes: u64,
}

impl View for StagedArtifact {
    type V = StagedView;

    open spec fn view(&self) -> StagedView {
        StagedView {
            packaged: self.packaged,
            in_package: optional(self.in_package),
            in_stage: optional(self.in_stage),
            format: self.format@,
            size_bytes: self.size_bytes,
        }
    }
}

impl Duplicate for StagedArtifact {
    fn duplicate(&self) -> (result: StagedArtifact) {
        StagedArtifact {
            packaged: self.packaged,
            in_package: duplicate_option(&self.in_package),
            in_stage: duplicate_option(&self.in_stage),
            format: self.format.clone(),
            size_bytes: self.size_bytes,
        }
    }
}

/// The paths of the primary files of a package.
pub open spec fn primary_paths(files: Seq<PlannedView>) -> Seq<Seq<char>>
    decreases files.len(),
{
    if files.len() == 0 {
        Seq::empty()
    } else if files.last().role == PackageRole::Primary {
        primary_paths(files.drop_last()).push(files.last().path)
    } else {
        primary_paths(files.drop_last())
    }
}

/// The different paths of a list.
pub open spec fn path_set(list: Seq<Seq<char>>) -> Set<Seq<PartView>> {
    list.map_values(|path: Seq<char>| parts(path)).to_set()
}

fn list_primary_paths(files: &Vec<PlannedFile>) -> (result: Vec<String>)
    ensures
        views(result@) == primary_paths(views(files@)),
{
    let ghost all = views(files@);
    let mut result: Vec<String> = Vec::new();
    let mut i: usize = 0;
    proof {
        assert(views(result@) =~= primary_paths(all.take(0)));
    }
    while i < files.len()
        invariant
            i <= files.len(),
            all == views(files@),
            views(result@) == primary_paths(all.take(i as int)),
        decreases files.len() - i,
    {
        proof {
            assert(all.take(i + 1).drop_last() =~= all.take(i as int));
            assert(all.take(i + 1).last() == files@[i as int]@);
        }
        if files[i].role == PackageRole::Primary {
            let path = files[i].path.clone();
            proof {
                lemma_views_push(result@, path);
            }
            result.push(path);
        }
        i += 1;
    }
    proof {
        assert(all.take(all.len() as int) =~= all);
    }
    result
}

proof fn lemma_path_set_grows(list: Seq<Seq<char>>, path: Seq<char>)
    ensures
        path_set(list.push(path)) == path_set(list).insert(parts(path)),
        path_set(list).contains(parts(path)) == has_path(list, path),
        path_set(list).finite(),
{
    let to_parts = |text: Seq<char>| parts(text);
    let mapped = list.map_values(to_parts);
    assert(list.push(path).map_values(to_parts) =~= mapped.push(parts(path)));
    assert forall|item: Seq<PartView>| #[trigger]
        mapped.push(parts(path)).to_set().contains(item) == mapped.to_set().insert(
            parts(path),
        ).contains(item) by {
        if mapped.contains(item) {
            let k = choose|k: int| 0 <= k < mapped.len() && mapped[k] == item;
            assert(mapped.push(parts(path))[k] == item);
        }
        if item == parts(path) {
            assert(mapped.push(parts(path))[mapped.len() as int] == item);
        }
    }
    assert(mapped.push(parts(path)).to_set() =~= mapped.to_set().insert(parts(path)));
    if mapped.contains(parts(path)) {
        let k = choose|k: int| 0 <= k < mapped.len() && mapped[k] == parts(path);
        assert(parts(list[k]) == parts(path));
    }
    if has_path(list, path) {
        let k = choose|k: int| 0 <= k < list.len() && parts(#[trigger] list[k]) == parts(path);
        assert(mapped[k] == parts(path));
    }
    vstd::seq_lib::seq_to_set_is_finite(mapped);
}

fn count_paths(list: &Vec<String>) -> (result: usize)
    ensures
        result == path_set(views(list@)).len(),
{
    let ghost all = views(list@);
    let mut seen: Vec<String> = Vec::new();
    let mut count: usize = 0;
    let mut i: usize = 0;
    proof {
        assert(path_set(all.take(0)) =~= Set::empty());
        assert(views(seen@) =~= all.take(0));
    }
    while i < list.len()
        invariant
            i <= list.len(),
            count <= i,
            all == views(list@),
            views(seen@) == all.take(i as int),
            count == path_set(all.take(i as int)).len(),
        decreases list.len() - i,
    {
        let path = list[i].clone();
        proof {
            assert(path@ == all[i as int]);
            lemma_path_set_grows(all.take(i as int), path@);
            assert(all.take(i + 1) =~= all.take(i as int).push(path@));
            lemma_views_push(seen@, path);
        }
        if !find_path(&seen, path.as_str()) {
            count += 1;
        }
        seen.push(path);
        i += 1;
    }
    proof {
        assert(all.take(all.len() as int) =~= all);
    }
    count
}

/// Whether an artifact is one of the primary files of a package.
pub open spec fn is_member(artifact: StagedView, primaries: Seq<Seq<char>>) -> bool {
    artifact.packaged && artifact.in_package is Some && has_path(
        primaries,
        artifact.in_package->0,
    )
}

/// The artifacts of a stage that are primary files of its package.
pub open spec fn members_of(artifacts: Seq<StagedView>, primaries: Seq<Seq<char>>) -> Seq<StagedView>
    decreases artifacts.len(),
{
    if artifacts.len() == 0 {
        Seq::empty()
    } else if is_member(artifacts.last(), primaries) {
        members_of(artifacts.drop_last(), primaries).push(artifacts.last())
    } else {
        members_of(artifacts.drop_last(), primaries)
    }
}

/// The members of a staged package. There must be as many as the manifest has primary files.
pub fn validate_package_stage(
    files: &Vec<PlannedFile>,
    artifacts: &Vec<StagedArtifact>,
    warnings: &Vec<String>,
) -> (result: Result<Vec<StagedArtifact>, ModelLibraryError>)
    ensures
        ({
            let primaries = primary_paths(views(files@));
            let members = members_of(views(artifacts@), primaries);
            match result {
                Ok(list) => views(list@) == members && members.len() == path_set(primaries).len(),
                Err(error) => members.len() != path_set(primaries).len() && error@
                    == LibraryErrorView::InvalidArtifact(
                    if warnings@.len() == 0 {
                        "staged Norted package did not expose every declared primary member"@
                    } else {
                        joined(views(warnings@), "; "@)
                    },
                ),
            }
        }),
{
    let primaries = list_primary_paths(files);
    let ghost wanted = views(primaries@);
    let ghost all = views(artifacts@);
    let mut members: Vec<StagedArtifact> = Vec::new();
    let mut i: usize = 0;
    proof {
        assert(views(members@) =~= members_of(all.take(0), wanted));
    }
    while i < artifacts.len()
        invariant
            i <= artifacts.len(),
            all == views(artifacts@),
            wanted == views(primaries@),
            views(members@) == members_of(all.take(i as int), wanted),
        decreases artifacts.len() - i,
    {
        proof {
            assert(all.take(i + 1).drop_last() =~= all.take(i as int));
            assert(all.take(i + 1).last() == artifacts@[i as int]@);
        }
        let belongs = match &artifacts[i].in_package {
            Some(path) => artifacts[i].packaged && find_path(&primaries, path.as_str()),
            None => false,
        };
        if belongs {
            let member = artifacts[i].duplicate();
            proof {
                lemma_views_push(members@, member);
            }
            members.push(member);
        }
        i += 1;
    }
    proof {
        assert(all.take(all.len() as int) =~= all);
        assert(views(members@).len() == members@.len());
    }
    if members.len() != count_paths(&primaries) {
        let text = if warnings.len() == 0 {
            "staged Norted package did not expose every declared primary member".to_owned()
        } else {
            join(warnings, "; ")
        };
        return Err(ModelLibraryError::InvalidArtifact(text));
    }
    Ok(members)
}

/// The first of the names that is not safe.
pub open spec fn first_unsafe(names: Seq<Seq<char>>) -> Option<Seq<char>>
    decreases names.len(),
{
    if names.len() == 0 {
        None
    } else {
        match first_unsafe(names.drop_last()) {
            Some(name) => Some(name),
            None => if is_safe(names.last()) {
                None
            } else {
                Some(names.last())
            },
        }
    }
}

/// Whether the installed members are those that were resolved, and no others.
pub open spec fn same_members(names: Seq<Seq<char>>, installed: Seq<StagedView>) -> bool {
    &&& forall|i: int|
        0 <= i < installed.len() && (#[trigger] installed[i]).in_stage is Some ==> has_path(
            names,
            installed[i].in_stage->0,
        )
    &&& forall|k: int|
        0 <= k < names.len() ==> #[trigger] is_installed(installed, names[k])
}

/// Whether one of the installed members is at a path.
pub open spec fn is_installed(installed: Seq<StagedView>, path: Seq<char>) -> bool {
    exists|i: int|
        0 <= i < installed.len() && (#[trigger] installed[i]).in_stage is Some && parts(
            installed[i].in_stage->0,
        ) == parts(path)
}

fn find_installed(installed: &Vec<StagedArtifact>, path: &str) -> (result: bool)
    ensures
        result == is_installed(views(installed@), path@),
{
    let ghost all = views(installed@);
    let mut i: usize = 0;
    while i < installed.len()
        invariant
            i <= installed.len(),
            all == views(installed@),
            forall|k: int|
                0 <= k < i && (#[trigger] all[k]).in_stage is Some ==> parts(all[k].in_stage->0)
                    != parts(path@),
        decreases installed.len() - i,
    {
        proof {
            assert(all[i as int] == installed@[i as int]@);
        }
        match &installed[i].in_stage {
            Some(found) => {
                if same_path(found.as_str(), path) {
                    return true;
                }
            },
            None => {},
        }
        i += 1;
    }
    false
}

fn check_names(names: &Vec<String>) -> (result: Result<(), ModelLibraryError>)
    ensures
        match (result, first_unsafe(views(names@))) {
            (Ok(_), None) => true,
            (Err(error), Some(name)) => error@ == LibraryErrorView::InvalidCatalog(
                "unsafe remote filename `"@ + name + "`"@,
            ),
            _ => false,
        },
{
    let ghost all = views(names@);
    let mut i: usize = 0;
    while i < names.len()
        invariant
            i <= names.len(),
            all == views(names@),
            first_unsafe(all.take(i as int)) is None,
        decreases names.len() - i,
    {
        proof {
            assert(all.take(i + 1).drop_last() =~= all.take(i as int));
            assert(all.take(i + 1).last() == names@[i as int]@);
        }
        match safe_remote_path(names[i].as_str()) {
            Ok(_) => {},
            Err(error) => {
                proof {
                    lemma_first_unsafe(all, i + 1);
                }
                return Err(error);
            },
        }
        i += 1;
    }
    proof {
        assert(all.take(all.len() as int) =~= all);
    }
    Ok(())
}

proof fn lemma_first_unsafe(names: Seq<Seq<char>>, count: int)
    requires
        0 <= count <= names.len(),
        first_unsafe(names.take(count)) is Some,
    ensures
        first_unsafe(names) == first_unsafe(names.take(count)),
    decreases names.len(),
{
    if count == names.len() {
        assert(names.take(count) =~= names);
    } else {
        assert(names.drop_last().take(count) =~= names.take(count));
        lemma_first_unsafe(names.drop_last(), count);
    }
}

/// Holds the installed members against the primary files that were resolved.
pub fn check_membership(names: &Vec<String>, installed: &Vec<StagedArtifact>) -> (result: Result<
    (),
    ModelLibraryError,
>)
    ensures
        match (result, first_unsafe(views(names@))) {
            (Ok(_), None) => same_members(views(names@), views(installed@)),
            (Err(error), Some(name)) => error@ == LibraryErrorView::InvalidCatalog(
                "unsafe remote filename `"@ + name + "`"@,
            ),
            (Err(error), None) => !same_members(views(names@), views(installed@)) && error@
                == LibraryErrorView::InvalidArtifact(
                "downloaded package primary membership differs from its manifest"@,
            ),
            (Ok(_), Some(_)) => false,
        },
{
    match check_names(names) {
        Ok(_) => {},
        Err(error) => {
            return Err(error);
        },
    }
    if is_same_members(names, installed) {
        Ok(())
    } else {
        Err(
            ModelLibraryError::InvalidArtifact(
                "downloaded package primary membership differs from its manifest".to_owned(),
            ),
        )
    }
}

fn is_same_members(names: &Vec<String>, installed: &Vec<StagedArtifact>) -> (result: bool)
    ensures
        result == same_members(views(names@), views(installed@)),
{
    let ghost wanted = views(names@);
    let ghost all = views(installed@);
    let mut i: usize = 0;
    while i < installed.len()
        invariant
            i <= installed.len(),
            all == views(installed@),
            wanted == views(names@),
            forall|k: int|
                0 <= k < i && (#[trigger] all[k]).in_stage is Some ==> has_path(
                    wanted,
                    all[k].in_stage->0,
                ),
        decreases installed.len() - i,
    {
        proof {
            assert(all[i as int] == installed@[i as int]@);
        }
        match &installed[i].in_stage {
            Some(path) => {
                if !find_path(names, path.as_str()) {
                    return false;
                }
            },
            None => {},
        }
        i += 1;
    }
    let mut k: usize = 0;
    while k < names.len()
        invariant
            k <= names.len(),
            all == views(installed@),
            wanted == views(names@),
            forall|j: int| 0 <= j < k ==> #[trigger] is_installed(all, wanted[j]),
        decreases names.len() - k,
    {
        proof {
            assert(wanted[k as int] == names@[k as int]@);
        }
        if !find_installed(installed, names[k].as_str()) {
            return false;
        }
        k += 1;
    }
    true
}

/// What is recorded of a downloaded file.
pub open spec fn remote_origin(
    resolved: ResolvedArtifactView,
    file: ResolvedFileView,
    size_bytes: u64,
    now: i64,
) -> OriginView {
    OriginView {
        acquisition_id: resolved.acquisition_id(),
        provider: resolved.provider,
        repository: Some(resolved.repository),
        logical_id: Some(
            resolved.provider + ":"@ + resolved.repository + "@"@ + resolved.revision + ":"@
                + file.filename,
        ),
        source: Some(file.url),
        revision: Some(resolved.revision),
        remote_filename: Some(file.filename),
        acquired_at_unix: now,
        size_bytes,
        digest: file.sha256,
    }
}

pub fn remote_provenance(
    resolved: &ResolvedArtifact,
    file: &ResolvedFile,
    size_bytes: u64,
    now: i64,
) -> (result: ModelArtifactProvenance)
    ensures
        result@ == remote_origin(resolved@, file@, size_bytes, now),
{
    ModelArtifactProvenance {
        acquisition_id: resolved.acquisition_id(),
        provider: resolved.provider.clone(),
        repository: Some(resolved.repository.clone()),
        logical_id: Some(
            cat7(
                resolved.provider.as_str(),
                ":",
                resolved.repository.as_str(),
                "@",
                resolved.revision.as_str(),
                ":",
                file.filename.as_str(),
            ),
        ),
        source: Some(file.url.clone()),
        revision: Some(resolved.revision.clone()),
        remote_filename: Some(file.filename.clone()),
        acquired_at_unix: now,
        size_bytes,
        digest: duplicate_option(&file.sha256),
    }
}

/// What is recorded of an artifact that belongs to no package: the file that was asked for.
pub open spec fn single_member(resolved: ResolvedArtifactView, size_bytes: u64, now: i64) -> MemberView {
    MemberView {
        path: resolved.primary.filename,
        format: resolved.format,
        provenance: remote_origin(resolved, resolved.primary, size_bytes, now),
    }
}

pub fn record_single(resolved: &ResolvedArtifact, size_bytes: u64, now: i64) -> (result: Vec<
    ModelLibraryReceiptMember,
>)
    ensures
        views(result@) == seq![single_member(resolved@, size_bytes, now)],
{
    let member = ModelLibraryReceiptMember {
        path: resolved.primary.filename.clone(),
        format: resolved.format.clone(),
        provenance: remote_provenance(resolved, &resolved.primary, size_bytes, now),
    };
    let mut result: Vec<ModelLibraryReceiptMember> = Vec::new();
    proof {
        lemma_views_push(result@, member);
    }
    result.push(member);
    proof {
        assert(views(result@) =~= seq![single_member(resolved@, size_bytes, now)]);
    }
    result
}

/// The last file of a name.
pub open spec fn last_named(files: Seq<ResolvedFileView>, filename: Seq<char>) -> Option<
    ResolvedFileView,
>
    decreases files.len(),
{
    if files.len() == 0 {
        None
    } else if files.last().filename == filename {
        Some(files.last())
    } else {
        last_named(files.drop_last(), filename)
    }
}

fn find_last_named<'a>(resolved: &'a ResolvedArtifact, filename: &str) -> (result: Option<
    &'a ResolvedFile,
>)
    ensures
        referenced(result) == last_named(resolved@.files(), filename@),
{
    let ghost files = resolved@.files();
    let mut i: usize = resolved.companions.len();
    proof {
        assert(files.take(i + 1) =~= files);
    }
    while i > 0
        invariant
            i <= resolved.companions@.len(),
            files == resolved@.files(),
            files.len() == resolved.companions@.len() + 1,
            last_named(files, filename@) == last_named(files.take(i + 1), filename@),
        decreases i,
    {
        let at: usize = i - 1;
        proof {
            assert(resolved@.companions[at as int] == resolved.companions@[at as int]@);
            assert(files[i as int] == resolved@.companions[at as int]);
            assert(files.take(i + 1).last() == files[i as int]);
            assert(files.take(i + 1).drop_last() =~= files.take(i as int));
        }
        if same(resolved.companions[at].filename.as_str(), filename) {
            return Some(&resolved.companions[at]);
        }
        i = at;
    }
    proof {
        assert(files[0] == resolved@.primary);
        assert(files.take(1).last() == files[0]);
        assert(files.take(1).drop_last() =~= Seq::empty());
        assert(last_named(files.take(1).drop_last(), filename@) is None);
    }
    if same(resolved.primary.filename.as_str(), filename) {
        Some(&resolved.primary)
    } else {
        None
    }
}

/// What is recorded of a member of a package.
pub open spec fn package_member(resolved: ResolvedArtifactView, artifact: StagedView, now: i64) -> Result<
    MemberView,
    LibraryErrorView,
> {
    match artifact.in_stage {
        None => Err(
            LibraryErrorView::InvalidArtifact(
                "staged package member escaped its acquisition root"@,
            ),
        ),
        Some(path) => match last_named(resolved.files(), slashed(path)) {
            None => Err(
                LibraryErrorView::InvalidCatalog(
                    "package primary `"@ + slashed(path) + "` was not resolved"@,
                ),
            ),
            Some(file) => Ok(
                MemberView {
                    path,
                    format: artifact.format,
                    provenance: remote_origin(resolved, file, artifact.size_bytes, now),
                },
            ),
        },
    }
}

/// What is recorded of the members of a package from one on, or the first reason that it cannot be.
pub open spec fn package_members(
    resolved: ResolvedArtifactView,
    installed: Seq<StagedView>,
    now: i64,
    at: int,
) -> Result<Seq<MemberView>, LibraryErrorView>
    decreases installed.len() - at,
{
    if at >= installed.len() {
        Ok(Seq::empty())
    } else {
        match package_member(resolved, installed[at], now) {
            Err(error) => Err(error),
            Ok(member) => match package_members(resolved, installed, now, at + 1) {
                Err(error) => Err(error),
                Ok(rest) => Ok(seq![member] + rest),
            },
        }
    }
}

fn record_member(resolved: &ResolvedArtifact, artifact: &StagedArtifact, now: i64) -> (result: Result<
    ModelLibraryReceiptMember,
    ModelLibraryError,
>)
    ensures
        match (result, package_member(resolved@, artifact@, now)) {
            (Ok(member), Ok(expected)) => member@ == expected,
            (Err(error), Err(expected)) => error@ == expected,
            _ => false,
        },
{
    let path = match &artifact.in_stage {
        None => {
            return Err(
                ModelLibraryError::InvalidArtifact(
                    "staged package member escaped its acquisition root".to_owned(),
                ),
            );
        },
        Some(path) => path,
    };
    let remote = slash_path(path.as_str());
    match find_last_named(resolved, remote.as_str()) {
        None => Err(
            ModelLibraryError::InvalidCatalog(
                cat3("package primary `", remote.as_str(), "` was not resolved"),
            ),
        ),
        Some(file) => Ok(
            ModelLibraryReceiptMember {
                path: path.clone(),
                format: artifact.format.clone(),
                provenance: remote_provenance(resolved, file, artifact.size_bytes, now),
            },
        ),
    }
}

pub fn record_package(
    resolved: &ResolvedArtifact,
    installed: &Vec<StagedArtifact>,
    now: i64,
) -> (result: Result<Vec<ModelLibraryReceiptMember>, ModelLibraryError>)
    ensures
        match (result, package_members(resolved@, views(installed@), now, 0)) {
            (Ok(members), Ok(expected)) => views(members@) == expected,
            (Err(error), Err(expected)) => error@ == expected,
            _ => false,
        },
{
    let ghost all = views(installed@);
    let mut members: Vec<ModelLibraryReceiptMember> = Vec::new();
    let mut i: usize = 0;
    proof {
        let rest = package_members(resolved@, all, now, 0);
        assert(views(members@) =~= Seq::empty());
        assert(rest is Ok ==> Seq::<MemberView>::empty() + rest->Ok_0 =~= rest->Ok_0);
    }
    while i < installed.len()
        invariant
            i <= installed.len(),
            all == views(installed@),
            package_members(resolved@, all, now, 0) == match package_members(
                resolved@,
                all,
                now,
                i as int,
            ) {
                Ok(rest) => Ok(views(members@) + rest),
                Err(error) => Err::<Seq<MemberView>, LibraryErrorView>(error),
            },
        decreases installed.len() - i,
    {
        proof {
            assert(all[i as int] == installed@[i as int]@);
        }
        match record_member(resolved, &installed[i], now) {
            Err(error) => {
                return Err(error);
            },
            Ok(member) => {
                let ghost before = views(members@);
                let ghost view = member@;
                proof {
                    lemma_views_push(members@, member);
                }
                members.push(member);
                proof {
                    let rest = package_members(resolved@, all, now, i + 1);
                    assert(rest is Ok ==> before + (seq![view] + rest->Ok_0) =~= views(members@)
                        + rest->Ok_0);
                }
            },
        }
        i += 1;
    }
    proof {
        assert(views(members@) + Seq::<MemberView>::empty() =~= views(members@));
    }
    Ok(members)
}

proof fn lemma_recorded(
    resolved: ResolvedArtifactView,
    installed: Seq<StagedView>,
    now: i64,
    at: int,
)
    requires
        0 <= at <= installed.len(),
        package_members(resolved, installed, now, at) is Ok,
    ensures
        ({
            let members = package_members(resolved, installed, now, at)->Ok_0;
            &&& members.len() == installed.len() - at
            &&& forall|i: int|
                0 <= i < members.len() ==> (#[trigger] members[i]).provenance.acquisition_id
                    == resolved.acquisition_id() && installed[at + i].in_stage == Some(
                    members[i].path,
                )
        }),
    decreases installed.len() - at,
{
    if at < installed.len() {
        lemma_recorded(resolved, installed, now, at + 1);
        let members = package_members(resolved, installed, now, at)->Ok_0;
        let rest = package_members(resolved, installed, now, at + 1)->Ok_0;
        assert forall|i: int| 0 <= i < members.len() implies (#[trigger]
        members[i]).provenance.acquisition_id == resolved.acquisition_id() && installed[at
            + i].in_stage == Some(members[i].path) by {
            if i > 0 {
                assert(members[i] == rest[i - 1]);
            }
        }
    }
}

proof fn lemma_all_safe(names: Seq<Seq<char>>)
    requires
        first_unsafe(names) is None,
    ensures
        forall|k: int| 0 <= k < names.len() ==> is_safe(#[trigger] names[k]),
    decreases names.len(),
{
    if names.len() > 0 {
        lemma_all_safe(names.drop_last());
        assert forall|k: int| 0 <= k < names.len() implies is_safe(#[trigger] names[k]) by {
            if k < names.len() - 1 {
                assert(names.drop_last()[k] == names[k]);
            }
        }
    }
}

/// What a download records of a file that belongs to no package is a receipt by which it can be
/// removed again.
pub proof fn law_single_downloads_can_be_removed(
    resolved: ResolvedArtifactView,
    size_bytes: u64,
    now: i64,
)
    requires
        is_safe(resolved.primary.filename),
    ensures
        (ReceiptView {
            schema_version: crate::receipts::RECEIPT_SCHEMA_VERSION,
            acquisition_id: resolved.acquisition_id(),
            members: seq![single_member(resolved, size_bytes, now)],
        }).sound(),
{
}

/// What a download records of a package, after its members were held against those that were
/// resolved, is a receipt by which it can be removed again. No two members are the same file.
pub proof fn law_package_downloads_can_be_removed(
    resolved: ResolvedArtifactView,
    names: Seq<Seq<char>>,
    installed: Seq<StagedView>,
    now: i64,
)
    requires
        installed.len() > 0,
        first_unsafe(names) is None,
        same_members(names, installed),
        forall|i: int, j: int|
            0 <= i < j < installed.len() && (#[trigger] installed[i]).in_stage is Some && (
            #[trigger] installed[j]).in_stage is Some ==> parts(installed[i].in_stage->0) != parts(
                installed[j].in_stage->0,
            ),
    ensures
        match package_members(resolved, installed, now, 0) {
            Ok(members) => (ReceiptView {
                schema_version: crate::receipts::RECEIPT_SCHEMA_VERSION,
                acquisition_id: resolved.acquisition_id(),
                members,
            }).sound(),
            Err(_) => true,
        },
{
    if package_members(resolved, installed, now, 0) is Ok {
        lemma_recorded(resolved, installed, now, 0);
        lemma_all_safe(names);
        let members = package_members(resolved, installed, now, 0)->Ok_0;
        let receipt = ReceiptView {
            schema_version: crate::receipts::RECEIPT_SCHEMA_VERSION,
            acquisition_id: resolved.acquisition_id(),
            members,
        };
        assert forall|i: int| 0 <= i < members.len() implies #[trigger] receipt.sound_at(i) by {
            let path = members[i].path;
            assert(installed[0 + i].in_stage == Some(path));
            assert(has_path(names, path));
            let k = choose|k: int|
                0 <= k < names.len() && parts(#[trigger] names[k]) == parts(path);
            assert(is_safe(names[k]));
            crate::paths::law_safety_is_of_the_parts(names[k], path);
            assert forall|j: int| 0 <= j < i implies parts((#[trigger] members[j]).path) != parts(
                path,
            ) by {
                assert(installed[0 + j].in_stage == Some(members[j].path));
                assert(installed[j].in_stage is Some && installed[i].in_stage is Some);
            }
        }
    }
}

/// What became of an attempt to download a model.
#[derive(Debug)]
pub enum DownloadOutcome {
    Installed(String),
    AlreadyInstalled(String),
    Failed(ModelLibraryError),
}

/// How an attempt ends, in a word and in words.
pub open spec fn completion(outcome: DownloadOutcome) -> (ModelOperationPhase, Seq<char>) {
    match outcome {
        DownloadOutcome::Installed(id) => (
            ModelOperationPhase::Installed,
            "Model installed as "@ + id@,
        ),
        DownloadOutcome::AlreadyInstalled(id) => (
            ModelOperationPhase::Installed,
            "Already installed as "@ + id@,
        ),
        DownloadOutcome::Failed(error) => (ModelOperationPhase::Failed, error@.text()),
    }
}

pub fn complete_download(outcome: &DownloadOutcome) -> (result: (ModelOperationPhase, String))
    ensures
        (result.0, result.1@) == completion(*outcome),
{
    match outcome {
        DownloadOutcome::Installed(id) => (
            ModelOperationPhase::Installed,
            cat2("Model installed as ", id.as_str()),
        ),
        DownloadOutcome::AlreadyInstalled(id) => (
            ModelOperationPhase::Installed,
            cat2("Already installed as ", id.as_str()),
        ),
        DownloadOutcome::Failed(error) => (ModelOperationPhase::Failed, error.message()),
    }
}

/// The setting of how many downloads run at a time.
pub open spec fn parallel_setting() -> Seq<char> {
    "server.max_parallel_model_downloads"@
}

/// How many downloads run at a time: what is set, where it is a count that fits, but at least one.
pub open spec fn parallel_downloads(settings: Map<Seq<char>, SettingView>) -> int {
    let set = if settings.dom().contains(parallel_setting()) {
        match settings[parallel_setting()] {
            SettingView::UnsignedInteger(value) => if value <= usize::MAX {
                value as int
            } else {
                DEFAULT_MAX_PARALLEL_DOWNLOADS as int
            },
            _ => DEFAULT_MAX_PARALLEL_DOWNLOADS as int,
        }
    } else {
        DEFAULT_MAX_PARALLEL_DOWNLOADS as int
    };
    if set < 1 {
        1
    } else {
        set
    }
}

pub fn max_parallel_downloads_from_settings(settings: &Table<SettingValue>) -> (result: usize)
    ensures
        result == parallel_downloads(settings@),
{
    let set: usize = match settings.get("server.max_parallel_model_downloads") {
        Some(SettingValue::UnsignedInteger(value)) => {
            let value: u64 = *value;
            let limit: u64 = usize::MAX as u64;
            if value <= limit {
                value as usize
            } else {
                DEFAULT_MAX_PARALLEL_DOWNLOADS
            }
        },
        _ => DEFAULT_MAX_PARALLEL_DOWNLOADS,
    };
    if set < 1 {
        1
    } else {
        set
    }
}

/// What is said of a setting that is a count.
#[derive(Debug)]
pub struct CountSetting {
    pub id: String,
    pub label: String,
    pub description: String,
    pub minimum: Option<u64>,
    pub maximum: Option<u64>,
    pub scope: String,
    pub category: String,
    pub supported: bool,
    pub unsupported_reason: Option<String>,
    pub unit: Option<String>,
    pub upstream_default: Option<String>,
    pub default_preview: Option<String>,
}

/// The setting of how many downloads run at a time, as it is shown.
pub fn setting_definition() -> (result: CountSetting)
    ensures
        result.id@ == parallel_setting(),
        result.label@ == "Max parallel downloads"@,
        result.description@
            == "Maximum number of separate model acquisitions that may download at once; additional downloads wait in FIFO order"@,
        result.minimum == Some(1u64),
        result.maximum is None,
        result.scope@ == "global"@,
        result.category@ == "downloads"@,
        result.supported,
        result.unsupported_reason is None,
        optional(result.unit) == Some("downloads"@),
        optional(result.upstream_default) == Some(
            decimal(DEFAULT_MAX_PARALLEL_DOWNLOADS as nat),
        ),
        optional(result.default_preview) == Some(decimal(DEFAULT_MAX_PARALLEL_DOWNLOADS as nat)),
{
    CountSetting {
        id: "server.max_parallel_model_downloads".to_owned(),
        label: "Max parallel downloads".to_owned(),
        description: "Maximum number of separate model acquisitions that may download at once; additional downloads wait in FIFO order".to_owned(),
        minimum: Some(1),
        maximum: None,
        scope: "global".to_owned(),
        category: "downloads".to_owned(),
        supported: true,
        unsupported_reason: None,
        unit: Some("downloads".to_owned()),
        upstream_default: Some(decimal_text(DEFAULT_MAX_PARALLEL_DOWNLOADS as u64)),
        default_preview: Some(decimal_text(DEFAULT_MAX_PARALLEL_DOWNLOADS as u64)),
    }
}

/// A download goes on where it stopped: what is there of the file is kept and the rest is asked for; what
/// is longer than the file is thrown away; and where all of it is there, nothing is asked for.
pub proof fn law_downloads_go_on_where_they_stopped(fetch: FetchView, existing: u64, partial: bool)
    ensures
        ({
            let (next, start) = fetch.looked(existing);
            let size = fetch.file.size_bytes;
            let begun = next.answered(partial).downloaded;
            &&& size is Some && existing > size->0 ==> start == (StartView::Ask {
                discard: true,
                range: None,
            }) && begun == 0
            &&& size == Some(existing) && existing > 0 ==> next.downloaded == existing
                && start == if fetch.file.sha256 is Some {
                StartView::Digest
            } else {
                StartView::Keep
            }
            &&& (size is None || existing < size->0) && existing > 0 ==> start == (StartView::Ask {
                discard: false,
                range: Some("bytes="@ + decimal(existing as nat) + "-"@),
            }) && begun == if partial {
                existing
            } else {
                0
            }
            &&& existing == 0 ==> start == (StartView::Ask { discard: false, range: None }) && begun
                == 0
            &&& next.file == fetch.file && next.before == fetch.before && next.total == fetch.total
        }),
{
}

/// A file that came to its end is refused where its size is not the one that was expected or where its
/// digest is another, however the digits are written, and otherwise it is ready.
pub proof fn law_only_what_was_expected_is_ready(fetch: FetchView, observed: Seq<char>)
    ensures
        fetch.size_refusal() is None <==> fetch.file.size_bytes is None || fetch.file.size_bytes
            == Some(fetch.downloaded),
        fetch.file.sha256 is None ==> fetch.ended().stage == FetchStage::Ready,
        fetch.file.sha256 is Some ==> fetch.ended().stage == FetchStage::Checking,
        fetch.ended().downloaded == fetch.downloaded,
        fetch.file.sha256 is Some ==> (fetch.digested(observed) is Ok <==> ascii_lower(observed)
            == ascii_lower(fetch.file.sha256->0)),
        match fetch.digested(observed) {
            Ok(next) => next.stage == FetchStage::Ready && next.digest == Some(observed)
                && next.downloaded == fetch.downloaded,
            Err(error) => error == (LibraryErrorView::DigestMismatch {
                filename: fetch.file.filename,
                expected: fetch.file.sha256->0,
                observed,
            }),
        },
{
}

/// The bytes of files are the sum of their known sizes: those of two lists are those of one and of the
/// other, and a file has its own.
pub proof fn law_known_bytes_are_summed(
    files: Seq<ResolvedFileView>,
    others: Seq<ResolvedFileView>,
    file: ResolvedFileView,
)
    ensures
        known_bytes(files + others) == known_bytes(files) + known_bytes(others),
        file.size_bytes is Some ==> known_bytes(seq![file]) == file.size_bytes->0,
        file.size_bytes is None ==> known_bytes(seq![file]) == 0,
    decreases others.len(),
{
    assert(seq![file].drop_last() =~= Seq::<ResolvedFileView>::empty());
    assert(known_bytes(Seq::<ResolvedFileView>::empty()) == 0);
    assert(seq![file].last() == file);
    if others.len() == 0 {
        assert(files + others =~= files);
    } else {
        law_known_bytes_are_summed(files, others.drop_last(), file);
        assert((files + others).drop_last() =~= files + others.drop_last());
        assert((files + others).last() == others.last());
    }
}

/// A file of an acquisition is refused where its path is not safe or leads to where one that was accepted
/// is, and otherwise it is accepted.
pub proof fn law_paths_are_accepted_once(
    acquisition: AcquisitionView,
    filename: Seq<char>,
    again: Seq<char>,
)
    ensures
        acquisition.refusal(filename) is None <==> is_safe(filename) && forall|i: int|
            0 <= i < acquisition.accepted.len() ==> parts(#[trigger] acquisition.accepted[i])
                != parts(filename),
        parts(again) == parts(filename) ==> (AcquisitionView {
            accepted: acquisition.accepted.push(filename),
            ..acquisition
        }).refusal(again) is Some,
{
    let next = acquisition.accepted.push(filename);
    assert(next[acquisition.accepted.len() as int] == filename);
    if parts(again) == parts(filename) {
        assert(has_path(next, again));
    }
}

/// A file of a package is refused where it is no file or its size is not the one of the plan.
pub proof fn law_package_files_must_be_as_planned(file: PlannedView, is_file: bool, size: u64)
    ensures
        package_file_refusal(file, is_file, size) is None <==> is_file && (file.size_bytes is None
            || file.size_bytes == Some(size)),
{
}

/// The primary paths of a plan are those of the files that it calls primary.
pub proof fn law_primary_paths_are_the_planned_ones(files: Seq<PlannedView>, path: Seq<char>)
    ensures
        primary_paths(files).contains(path) <==> exists|i: int|
            0 <= i < files.len() && (#[trigger] files[i]).role == PackageRole::Primary
                && files[i].path == path,
    decreases files.len(),
{
    let all = primary_paths(files);
    if files.len() > 0 {
        let rest = files.drop_last();
        let some = primary_paths(rest);
        law_primary_paths_are_the_planned_ones(rest, path);
        assert(files[files.len() - 1] == files.last());
        if some.contains(path) {
            let i = choose|i: int|
                0 <= i < rest.len() && (#[trigger] rest[i]).role == PackageRole::Primary
                    && rest[i].path == path;
            assert(files[i] == rest[i]);
            assert(all[some.index_of(path)] == path);
        }
        if files.last().role == PackageRole::Primary {
            assert(all[all.len() - 1] == files.last().path);
            if all.contains(path) && path != files.last().path {
                assert(some[all.index_of(path)] == path);
            }
        }
        if exists|i: int|
            0 <= i < files.len() && (#[trigger] files[i]).role == PackageRole::Primary
                && files[i].path == path {
            let i = choose|i: int|
                0 <= i < files.len() && (#[trigger] files[i]).role == PackageRole::Primary
                    && files[i].path == path;
            if i < rest.len() {
                assert(rest[i] == files[i]);
            }
        }
    } else {
        assert(!all.contains(path));
    }
}

/// The members of a staged package are the artifacts that came in a package and are at one of its primary
/// paths.
pub proof fn law_members_are_at_primary_paths(
    artifacts: Seq<StagedView>,
    primaries: Seq<Seq<char>>,
    artifact: StagedView,
)
    ensures
        members_of(artifacts, primaries).contains(artifact) <==> artifacts.contains(artifact)
            && artifact.packaged && artifact.in_package is Some && exists|k: int|
            0 <= k < primaries.len() && parts(#[trigger] primaries[k]) == parts(
                artifact.in_package->0,
            ),
    decreases artifacts.len(),
{
    let all = members_of(artifacts, primaries);
    if artifacts.len() > 0 {
        let rest = artifacts.drop_last();
        let some = members_of(rest, primaries);
        law_members_are_at_primary_paths(rest, primaries, artifact);
        assert(artifacts[artifacts.len() - 1] == artifacts.last());
        if rest.contains(artifact) {
            assert(artifacts[rest.index_of(artifact)] == artifact);
        }
        if artifacts.contains(artifact) && artifact != artifacts.last() {
            assert(rest[artifacts.index_of(artifact)] == artifact);
        }
        if is_member(artifacts.last(), primaries) {
            assert(all[all.len() - 1] == artifacts.last());
            if some.contains(artifact) {
                assert(all[some.index_of(artifact)] == artifact);
            }
            if all.contains(artifact) && artifact != artifacts.last() {
                assert(some[all.index_of(artifact)] == artifact);
            }
        }
    } else {
        assert(!all.contains(artifact));
    }
}

/// The name that is told of is the first that is not safe, and none is told of where all are safe.
pub proof fn law_first_unsafe_name_is_told(names: Seq<Seq<char>>)
    ensures
        match first_unsafe(names) {
            Some(name) => exists|i: int|
                0 <= i < names.len() && #[trigger] names[i] == name && !is_safe(name)
                    && first_unsafe(names.take(i)) is None,
            None => forall|i: int| 0 <= i < names.len() ==> is_safe(#[trigger] names[i]),
        },
    decreases names.len(),
{
    if names.len() > 0 {
        let rest = names.drop_last();
        law_first_unsafe_name_is_told(rest);
        assert(names[names.len() - 1] == names.last());
        match first_unsafe(names) {
            Some(name) => {
                if first_unsafe(rest) is Some {
                    let i = choose|i: int|
                        0 <= i < rest.len() && #[trigger] rest[i] == name && !is_safe(name)
                            && first_unsafe(rest.take(i)) is None;
                    assert(names[i] == name);
                    assert(names.take(i) =~= rest.take(i));
                } else {
                    assert(names.take(names.len() - 1) =~= rest);
                }
            },
            None => {
                assert forall|i: int| 0 <= i < names.len() implies is_safe(#[trigger] names[i]) by {
                    if i < rest.len() {
                        assert(rest[i] == names[i]);
                    }
                }
            },
        }
    }
}

/// Of a downloaded file is recorded where it came from, what it is called there, which size it has and
/// which digest was expected of it; all files of one acquisition are recorded under one name.
pub proof fn law_origins_tell_of_their_files(
    resolved: ResolvedArtifactView,
    file: ResolvedFileView,
    other: ResolvedFileView,
    size_bytes: u64,
    now: i64,
)
    ensures
        ({
            let origin = remote_origin(resolved, file, size_bytes, now);
            &&& origin.provider == resolved.provider
            &&& origin.repository == Some(resolved.repository)
            &&& origin.revision == Some(resolved.revision)
            &&& origin.remote_filename == Some(file.filename)
            &&& origin.source == Some(file.url)
            &&& origin.digest == file.sha256
            &&& origin.size_bytes == size_bytes
            &&& origin.acquired_at_unix == now
            &&& origin.acquisition_id == remote_origin(
                resolved,
                other,
                size_bytes,
                now,
            ).acquisition_id
            &&& origin.logical_id == Some(
                resolved.provider + ":"@ + resolved.repository + "@"@ + resolved.revision + ":"@
                    + file.filename,
            )
        }),
        ({
            let identity = match resolved.package {
                Some(package) => package.manifest_filename,
                None => resolved.primary.filename,
            };
            resolved.acquisition_id() == resolved.provider + ":"@ + resolved.repository + "@"@
                + resolved.revision + ":"@ + identity
        }),
        resolved.files().len() == 1 + resolved.companions.len(),
        resolved.files()[0] == resolved.primary,
{
}

/// The members of a package are recorded in their order, each at its own path, with its own format and
/// size; and where one cannot be recorded, none is.
pub proof fn law_members_are_recorded_in_order(
    resolved: ResolvedArtifactView,
    installed: Seq<StagedView>,
    now: i64,
)
    ensures
        match package_members(resolved, installed, now, 0) {
            Ok(members) => members.len() == installed.len() && forall|i: int|
                0 <= i < installed.len() ==> (#[trigger] installed[i]).in_stage == Some(
                    members[i].path,
                ) && members[i].format == installed[i].format && members[i].provenance.size_bytes
                    == installed[i].size_bytes && members[i].provenance.acquired_at_unix == now
                    && members[i].provenance.remote_filename == Some(slashed(members[i].path)),
            Err(_) => exists|i: int|
                0 <= i < installed.len() && package_member(
                    resolved,
                    #[trigger] installed[i],
                    now,
                ) is Err,
        },
{
    lemma_members_in_order(resolved, installed, now, 0);
    if let Ok(members) = package_members(resolved, installed, now, 0) {
        assert forall|i: int| 0 <= i < installed.len() implies (#[trigger] installed[i]).in_stage
            == Some(members[i].path) && members[i].format == installed[i].format
            && members[i].provenance.size_bytes == installed[i].size_bytes
            && members[i].provenance.acquired_at_unix == now
            && members[i].provenance.remote_filename == Some(slashed(members[i].path)) by {
            assert(package_member(resolved, installed[0 + i], now) == Ok::<
                MemberView,
                LibraryErrorView,
            >(members[i]));
            lemma_last_named(resolved.files(), slashed(members[i].path));
        }
    }
}

proof fn lemma_members_in_order(
    resolved: ResolvedArtifactView,
    installed: Seq<StagedView>,
    now: i64,
    at: int,
)
    requires
        0 <= at <= installed.len(),
    ensures
        match package_members(resolved, installed, now, at) {
            Ok(members) => members.len() == installed.len() - at && forall|i: int|
                0 <= i < members.len() ==> package_member(resolved, installed[at + i], now) == Ok::<
                    MemberView,
                    LibraryErrorView,
                >(#[trigger] members[i]),
            Err(_) => exists|i: int|
                at <= i < installed.len() && package_member(
                    resolved,
                    #[trigger] installed[i],
                    now,
                ) is Err,
        },
    decreases installed.len() - at,
{
    if at < installed.len() {
        lemma_members_in_order(resolved, installed, now, at + 1);
        if let Ok(members) = package_members(resolved, installed, now, at) {
            let rest = package_members(resolved, installed, now, at + 1)->Ok_0;
            assert forall|i: int| 0 <= i < members.len() implies package_member(
                resolved,
                installed[at + i],
                now,
            ) == Ok::<MemberView, LibraryErrorView>(#[trigger] members[i]) by {
                if i > 0 {
                    assert(rest[i - 1] == members[i]);
                    assert(at + 1 + (i - 1) == at + i);
                }
            }
        } else if package_member(resolved, installed[at], now) is Ok {
            let i = choose|i: int|
                at + 1 <= i < installed.len() && package_member(
                    resolved,
                    #[trigger] installed[i],
                    now,
                ) is Err;
            assert(package_member(resolved, installed[i], now) is Err);
        }
    }
}

proof fn lemma_last_named(files: Seq<ResolvedFileView>, filename: Seq<char>)
    ensures
        last_named(files, filename) matches Some(file) ==> file.filename == filename,
    decreases files.len(),
{
    if files.len() > 0 {
        lemma_last_named(files.drop_last(), filename);
    }
}

/// An attempt ends as installed exactly where the model is there, and the words say how.
pub proof fn law_outcomes_are_told(outcome: DownloadOutcome)
    ensures
        outcome is Failed ==> completion(outcome).0 == ModelOperationPhase::Failed,
        outcome !is Failed ==> completion(outcome).0 == ModelOperationPhase::Installed,
        outcome matches DownloadOutcome::Installed(id) ==> completion(outcome).1
            == "Model installed as "@ + id@,
        outcome matches DownloadOutcome::AlreadyInstalled(id) ==> completion(outcome).1
            == "Already installed as "@ + id@,
{
}

/// As many downloads run at a time as is set, where that is a count that fits, but at least one; where
/// nothing is set, or something else, the default holds.
pub proof fn law_downloads_at_a_time(settings: Map<Seq<char>, SettingView>, count: u64)
    ensures
        ({
            let name = "server.max_parallel_model_downloads"@;
            let set = parallel_downloads(
                settings.insert(name, SettingView::UnsignedInteger(count)),
            );
            &&& 1 <= count <= usize::MAX ==> set == count
            &&& count == 0 ==> set == 1
            &&& parallel_downloads(settings) >= 1
            &&& !settings.dom().contains(name) || settings[name] !is UnsignedInteger
                ==> parallel_downloads(settings) == 4
        }),
{
}

} // verus!
