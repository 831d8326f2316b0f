//! Downloads of models: which run, which wait, and what becomes of each.
use vstd::prelude::*;
use vstd::string::*;

use crate::duplicate::{optional, Duplicate};
use crate::outside::{is_hyphenated, random_identifier};
use crate::table::{first_where, ordered, Table};
use crate::text::{cut, split_once};

pub mod laws;
pub mod queue;

verus! {

/// How many downloads run at a time unless something else is set.
pub const DEFAULT_MAX_PARALLEL_DOWNLOADS: usize = 4;

/// How many finished downloads are remembered.
pub const MAX_RECENT_TERMINAL_JOBS: usize = 24;

/// The identifier of a download.
#[derive(Debug, Clone, PartialEq, Eq, Hash, PartialOrd, Ord)]
pub struct ModelDownloadJobId(String);

impl View for ModelDownloadJobId {
    type V = Seq<char>;

    closed spec fn view(&self) -> Seq<char> {
        self.0@
    }
}

impl Duplicate for ModelDownloadJobId {
    fn duplicate(&self) -> (result: ModelDownloadJobId) {
        ModelDownloadJobId(self.0.clone())
    }
}

impl ModelDownloadJobId {
    /// A fresh identifier.
    pub fn new() -> (result: ModelDownloadJobId)
        ensures
            is_hyphenated(result@),
    {
        ModelDownloadJobId(random_identifier())
    }

    /// The identifier that a text writes.
    pub fn from_text(text: &str) -> (result: ModelDownloadJobId)
        ensures
            result@ == text@,
    {
        ModelDownloadJobId(text.to_owned())
    }

    pub fn text(&self) -> (result: &str)
        ensures
            result@ == self@,
    {
        self.0.as_str()
    }
}

/// How far an acquisition is.
#[derive(Debug, Clone, Copy, PartialEq, Eq, Structural)]
pub enum ModelOperationPhase {
    Queued,
    Resolving,
    Downloading,
    Paused,
    Verifying,
    Validating,
    Installing,
    Installed,
    Failed,
    Cancelled,
}

impl ModelOperationPhase {
    /// Whether nothing more happens.
    pub open spec fn over(self) -> bool {
        self == ModelOperationPhase::Installed || self == ModelOperationPhase::Failed || self
            == ModelOperationPhase::Cancelled
    }

    pub fn is_terminal(self) -> (result: bool)
        ensures
            result == self.over(),
    {
        match self {
            ModelOperationPhase::Installed
            | ModelOperationPhase::Failed
            | ModelOperationPhase::Cancelled => true,
            _ => false,
        }
    }
}

/// How an acquisition goes on.
#[derive(Debug)]
pub struct ModelOperationProgress {
    pub job_id: ModelDownloadJobId,
    pub model_ref: String,
    pub provider: Option<String>,
    pub repository: Option<String>,
    pub filename: String,
    pub phase: ModelOperationPhase,
    pub downloaded_bytes: u64,
    pub total_bytes: Option<u64>,
    pub message: String,
}

#[verifier::ext_equal]
pub struct OperationView {
    pub job_id: Seq<char>,
    pub model_ref: Seq<char>,
    pub provider: Option<Seq<char>>,
    pub repository: Option<Seq<char>>,
    pub filename: Seq<char>,
    pub phase: ModelOperationPhase,
    pub downloaded_bytes: u64,
    pub total_bytes: Option<u64>,
    pub message: Seq<char>,
}

impl View for ModelOperationProgress {
    type V = OperationView;

    open spec fn view(&self) -> OperationView {
        OperationView {
            job_id: self.job_id@,
            model_ref: self.model_ref@,
            provider: optional(self.provider),
            repository: optional(self.repository),
            filename: self.filename@,
            phase: self.phase,
            downloaded_bytes: self.downloaded_bytes,
            total_bytes: self.total_bytes,
            message: self.message@,
        }
    }
}

/// An attempt that runs: which one, and whether it was told to stop.
#[derive(Debug, Clone, Copy, PartialEq, Eq, Structural)]
pub struct ActiveControl {
    pub generation: u64,
    pub stop: bool,
}

/// What is known of a download. Times are nanoseconds of a steady clock.
#[derive(Debug)]
pub struct JobRecord {
    pub model_ref: String,
    pub provider: Option<String>,
    pub repository: Option<String>,
    pub filename: Option<String>,
    pub phase: ModelOperationPhase,
    pub downloaded_bytes: u64,
    pub total_bytes: Option<u64>,
    pub message: String,
    pub enqueued_at: u64,
    pub started_at: Option<u64>,
    pub finished_at: Option<u64>,
    pub transfer_started_at: Option<u64>,
    pub transfer_baseline_bytes: u64,
    pub generation: u64,
    pub active_control: Option<ActiveControl>,
    pub resume_after_stop: bool,
    pub partial_paths: Table<bool>,
}

#[verifier::ext_equal]
pub struct JobView {
    pub model_ref: Seq<char>,
    pub provider: Option<Seq<char>>,
    pub repository: Option<Seq<char>>,
    pub filename: Option<Seq<char>>,
    pub phase: ModelOperationPhase,
    pub downloaded_bytes: u64,
    pub total_bytes: Option<u64>,
    pub message: Seq<char>,
    pub enqueued_at: u64,
    pub started_at: Option<u64>,
    pub finished_at: Option<u64>,
    pub transfer_started_at: Option<u64>,
    pub transfer_baseline_bytes: u64,
    pub generation: u64,
    pub active_control: Option<ActiveControl>,
    pub resume_after_stop: bool,
    pub partial_paths: Set<Seq<char>>,
}

impl View for JobRecord {
    type V = JobView;

    open spec fn view(&self) -> JobView {
        JobView {
            model_ref: self.model_ref@,
            provider: optional(self.provider),
            repository: optional(self.repository),
            filename: optional(self.filename),
            phase: self.phase,
            downloaded_bytes: self.downloaded_bytes,
            total_bytes: self.total_bytes,
            message: self.message@,
            enqueued_at: self.enqueued_at,
            started_at: self.started_at,
            finished_at: self.finished_at,
            transfer_started_at: self.transfer_started_at,
            transfer_baseline_bytes: self.transfer_baseline_bytes,
            generation: self.generation,
            active_control: self.active_control,
            resume_after_stop: self.resume_after_stop,
            partial_paths: self.partial_paths@.dom(),
        }
    }
}

/// The generation after one: it is never zero.
pub open spec fn next_generation(generation: u64) -> u64 {
    if generation == u64::MAX {
        1
    } else {
        (generation + 1) as u64
    }
}

/// What a reference says of provider, repository and file.
pub open spec fn reference_parts(model_ref: Seq<char>) -> (
    Option<Seq<char>>,
    Option<Seq<char>>,
    Option<Seq<char>>,
) {
    let (provider, rest) = match cut(model_ref, ':') {
        Some((provider, rest)) => (Some(provider), rest),
        None => (None, model_ref),
    };
    match cut(rest, '@') {
        None => (provider, None, None),
        Some((repository, tail)) => (
            provider,
            if repository.len() > 0 {
                Some(repository)
            } else {
                None
            },
            match cut(tail, '/') {
                Some((_, filename)) if filename.len() > 0 => Some(filename),
                _ => None,
            },
        ),
    }
}

fn is_empty_text(text: &str) -> (result: bool)
    ensures
        result == (text@.len() == 0),
{
    crate::text::chars_of(text).len() == 0
}

pub fn identity_from_reference(model_ref: &str) -> (result: (
    Option<String>,
    Option<String>,
    Option<String>,
))
    ensures
        (optional(result.0), optional(result.1), optional(result.2)) == reference_parts(model_ref@),
{
    let (provider, rest) = match split_once(model_ref, ':') {
        Some((provider, rest)) => (Some(provider), rest),
        None => (None, model_ref.to_owned()),
    };
    match split_once(rest.as_str(), '@') {
        None => (provider, None, None),
        Some((repository, tail)) => {
            let repository = if is_empty_text(repository.as_str()) {
                None
            } else {
                Some(repository)
            };
            let filename = match split_once(tail.as_str(), '/') {
                Some((_, filename)) => {
                    if is_empty_text(filename.as_str()) {
                        None
                    } else {
                        Some(filename)
                    }
                },
                None => None,
            };
            (provider, repository, filename)
        },
    }
}

impl JobView {
    /// A download that waits for its turn.
    pub open spec fn fresh(model_ref: Seq<char>, now: u64) -> JobView {
        let (provider, repository, filename) = reference_parts(model_ref);
        JobView {
            model_ref,
            provider,
            repository,
            filename,
            phase: ModelOperationPhase::Queued,
            downloaded_bytes: 0,
            total_bytes: None,
            message: "Waiting for an available download slot"@,
            enqueued_at: now,
            started_at: None,
            finished_at: None,
            transfer_started_at: None,
            transfer_baseline_bytes: 0,
            generation: 0,
            active_control: None,
            resume_after_stop: false,
            partial_paths: Set::empty(),
        }
    }

    /// Whether the download can start now.
    pub open spec fn ready(self) -> bool {
        self.phase == ModelOperationPhase::Queued && self.active_control is None
    }

    /// The download at the start of an attempt.
    pub open spec fn started(self, now: u64) -> JobView {
        let generation = next_generation(self.generation);
        JobView {
            phase: ModelOperationPhase::Resolving,
            message: "Resolving exact artifact"@,
            started_at: if self.started_at is None {
                Some(now)
            } else {
                self.started_at
            },
            generation,
            transfer_started_at: None,
            transfer_baseline_bytes: self.downloaded_bytes,
            active_control: Some(ActiveControl { generation, stop: false }),
            ..self
        }
    }

    /// With the attempt that runs told to stop, if there is one.
    pub open spec fn told_to_stop(self) -> JobView {
        JobView {
            active_control: match self.active_control {
                Some(active) => Some(ActiveControl { stop: true, ..active }),
                None => None,
            },
            ..self
        }
    }

    pub open spec fn paused(self) -> JobView {
        JobView {
            phase: ModelOperationPhase::Paused,
            message: "Paused"@,
            transfer_started_at: None,
            transfer_baseline_bytes: self.downloaded_bytes,
            resume_after_stop: false,
            ..self
        }
    }

    /// Waiting for its turn again.
    pub open spec fn waiting(self) -> JobView {
        JobView {
            phase: ModelOperationPhase::Queued,
            message: "Waiting for an available download slot"@,
            ..self
        }
    }

    /// Resumed: it waits for its turn, or, while the attempt that was paused still runs, for the end of
    /// that.
    pub open spec fn resumed(self) -> JobView {
        let still = JobView {
            transfer_started_at: None,
            transfer_baseline_bytes: self.downloaded_bytes,
            ..self
        };
        if self.active_control is Some {
            JobView {
                resume_after_stop: true,
                message: "Resuming after the paused transfer stops"@,
                ..still
            }
        } else {
            still.waiting()
        }
    }

    pub open spec fn cancelled(self, now: u64) -> JobView {
        JobView {
            phase: ModelOperationPhase::Cancelled,
            message: "Download cancelled"@,
            finished_at: Some(now),
            resume_after_stop: false,
            transfer_started_at: None,
            partial_paths: if self.active_control is None {
                Set::empty()
            } else {
                self.partial_paths
            },
            ..self.told_to_stop()
        }
    }

    /// Whether a report comes from the attempt that runs, or from none in particular.
    pub open spec fn heeds(self, generation: Option<u64>) -> bool {
        match generation {
            Some(generation) => self.active_control is Some && self.active_control->0.generation
                == generation,
            None => true,
        }
    }

    /// With a report of how the download goes on. A paused or cancelled download does not go on.
    pub open spec fn reported(
        self,
        progress: OperationView,
        generation: Option<u64>,
        now: u64,
    ) -> JobView {
        if !self.heeds(generation) || self.phase == ModelOperationPhase::Paused || self.phase
            == ModelOperationPhase::Cancelled {
            self
        } else {
            let begins = progress.phase == ModelOperationPhase::Downloading && self.phase
                != ModelOperationPhase::Downloading;
            JobView {
                transfer_started_at: if begins {
                    Some(now)
                } else {
                    self.transfer_started_at
                },
                transfer_baseline_bytes: if begins {
                    progress.downloaded_bytes
                } else {
                    self.transfer_baseline_bytes
                },
                provider: progress.provider,
                repository: progress.repository,
                filename: if progress.filename.len() > 0 {
                    Some(progress.filename)
                } else {
                    self.filename
                },
                phase: progress.phase,
                finished_at: if progress.phase.over() && self.finished_at is None {
                    Some(now)
                } else {
                    self.finished_at
                },
                downloaded_bytes: progress.downloaded_bytes,
                total_bytes: progress.total_bytes,
                message: progress.message,
                ..self
            }
        }
    }

    /// At the end of an attempt, and what came of it where it ran to its end.
    pub open spec fn ended(
        self,
        completion: Option<(ModelOperationPhase, Seq<char>)>,
        now: u64,
    ) -> JobView {
        let still = JobView { active_control: None, ..self };
        if self.phase == ModelOperationPhase::Paused {
            if self.resume_after_stop {
                JobView { resume_after_stop: false, ..still }.waiting()
            } else {
                still
            }
        } else if self.phase == ModelOperationPhase::Cancelled {
            JobView { partial_paths: Set::empty(), ..still }
        } else {
            match completion {
                Some((phase, message)) => JobView {
                    phase,
                    message,
                    finished_at: if phase.over() && self.finished_at is None {
                        Some(now)
                    } else {
                        self.finished_at
                    },
                    partial_paths: if phase == ModelOperationPhase::Installed {
                        Set::empty()
                    } else {
                        self.partial_paths
                    },
                    ..still
                },
                None => still,
            }
        }
    }

    /// Whether the download is over and nothing of it runs.
    pub open spec fn settled(self) -> bool {
        self.phase.over() && self.active_control is None
    }
}

/// An attempt to start.
#[derive(Debug)]
pub struct DownloadStart {
    pub id: ModelDownloadJobId,
    pub generation: u64,
}

#[verifier::ext_equal]
pub struct StartView {
    pub id: Seq<char>,
    pub generation: u64,
}

impl View for DownloadStart {
    type V = StartView;

    open spec fn view(&self) -> StartView {
        StartView { id: self.id@, generation: self.generation }
    }
}

/// What to do next: attempts to start and files to remove.
#[derive(Debug)]
pub struct DownloadTransition {
    pub starts: Vec<DownloadStart>,
    pub cleanup: Vec<String>,
}

/// A download as it is shown. The parts of the whole, the bytes and the nanoseconds of the transfer,
/// and the bytes that are left are given where they are known.
#[derive(Debug)]
pub struct ModelDownloadJob {
    pub id: ModelDownloadJobId,
    pub model_ref: String,
    pub provider: Option<String>,
    pub repository: Option<String>,
    pub filename: Option<String>,
    pub phase: ModelOperationPhase,
    pub downloaded_bytes: u64,
    pub total_bytes: Option<u64>,
    pub progress: Option<(u64, u64)>,
    pub transfer: Option<(u64, u64)>,
    pub elapsed: u64,
    pub remaining_bytes: Option<u64>,
    pub queue_position: Option<usize>,
    pub message: String,
}

#[verifier::ext_equal]
pub struct ShownJobView {
    pub id: Seq<char>,
    pub model_ref: Seq<char>,
    pub provider: Option<Seq<char>>,
    pub repository: Option<Seq<char>>,
    pub filename: Option<Seq<char>>,
    pub phase: ModelOperationPhase,
    pub downloaded_bytes: u64,
    pub total_bytes: Option<u64>,
    pub progress: Option<(u64, u64)>,
    pub transfer: Option<(u64, u64)>,
    pub elapsed: u64,
    pub remaining_bytes: Option<u64>,
    pub queue_position: Option<int>,
    pub message: Seq<char>,
}

impl View for ModelDownloadJob {
    type V = ShownJobView;

    open spec fn view(&self) -> ShownJobView {
        ShownJobView {
            id: self.id@,
            model_ref: self.model_ref@,
            provider: optional(self.provider),
            repository: optional(self.repository),
            filename: optional(self.filename),
            phase: self.phase,
            downloaded_bytes: self.downloaded_bytes,
            total_bytes: self.total_bytes,
            progress: self.progress,
            transfer: self.transfer,
            elapsed: self.elapsed,
            remaining_bytes: self.remaining_bytes,
            queue_position: match self.queue_position {
                Some(position) => Some(position as int),
                None => None,
            },
            message: self.message@,
        }
    }
}

impl ModelDownloadJob {
    pub fn is_terminal(&self) -> (result: bool)
        ensures
            result == self.phase.over(),
    {
        self.phase.is_terminal()
    }
}

/// What came of asking for a download.
#[derive(Debug)]
pub enum DownloadAdmission {
    Started(ModelDownloadJob),
    Queued(ModelDownloadJob),
    Duplicate(ModelDownloadJob),
}

#[verifier::ext_equal]
pub enum AdmissionView {
    Started(ShownJobView),
    Queued(ShownJobView),
    Duplicate(ShownJobView),
}

impl View for DownloadAdmission {
    type V = AdmissionView;

    open spec fn view(&self) -> AdmissionView {
        match self {
            DownloadAdmission::Started(job) => AdmissionView::Started(job@),
            DownloadAdmission::Queued(job) => AdmissionView::Queued(job@),
            DownloadAdmission::Duplicate(job) => AdmissionView::Duplicate(job@),
        }
    }
}

/// All downloads: how many run at a time, what is known of each, the order that they came in, those
/// that wait and those that run.
#[verifier::ext_equal]
pub struct DownloadsView {
    pub maximum_parallel: int,
    pub jobs: Map<Seq<char>, JobView>,
    pub order: Seq<Seq<char>>,
    pub queue: Seq<Seq<char>>,
    pub active: Set<Seq<char>>,
}

/// The time from one moment to another, none where the clock went back.
pub open spec fn time_between(start: u64, end: u64) -> u64 {
    if start <= end {
        (end - start) as u64
    } else {
        0
    }
}

/// The place of an item among others, the first where it is there more than once.
pub open spec fn place_in(list: Seq<Seq<char>>, item: Seq<char>) -> Option<int> {
    list.index_of_first(item)
}

/// Without an item.
pub open spec fn without(list: Seq<Seq<char>>, item: Seq<char>) -> Seq<Seq<char>>
    decreases list.len(),
{
    if list.len() == 0 {
        list
    } else if list.last() == item {
        without(list.drop_last(), item)
    } else {
        without(list.drop_last(), item).push(list.last())
    }
}

impl DownloadsView {
    pub open spec fn empty(maximum_parallel: int) -> DownloadsView {
        DownloadsView {
            maximum_parallel: if maximum_parallel < 1 {
                1
            } else {
                maximum_parallel
            },
            jobs: Map::empty(),
            order: Seq::empty(),
            queue: Seq::empty(),
            active: Set::empty(),
        }
    }

    /// With something known anew of a download.
    pub open spec fn with_job(self, id: Seq<char>, job: JobView) -> DownloadsView {
        DownloadsView { jobs: self.jobs.insert(id, job), ..self }
    }

    /// With the next downloads started, as long as there is room: those that wait take their turns, and
    /// what cannot start is dropped from the queue.
    pub open spec fn scheduled(self, now: u64) -> (DownloadsView, Seq<StartView>)
        decreases self.queue.len(),
    {
        if self.active.len() >= self.maximum_parallel || self.queue.len() == 0 {
            (self, Seq::empty())
        } else {
            let id = self.queue[0];
            let next = DownloadsView { queue: self.queue.skip(1), ..self };
            if !self.jobs.contains_key(id) || !self.jobs[id].ready() {
                next.scheduled(now)
            } else {
                let job = self.jobs[id].started(now);
                let (end, starts) = DownloadsView {
                    active: self.active.insert(id),
                    ..next
                }.with_job(id, job).scheduled(now);
                (end, seq![StartView { id, generation: job.generation }] + starts)
            }
        }
    }

    /// How many finished downloads are listed.
    pub open spec fn settled_count(self, count: int) -> nat
        decreases count,
    {
        if count <= 0 {
            0
        } else {
            self.settled_count(count - 1) + if self.is_settled(self.order[count - 1]) {
                1nat
            } else {
                0nat
            }
        }
    }

    pub open spec fn is_settled(self, id: Seq<char>) -> bool {
        self.jobs.contains_key(id) && self.jobs[id].settled()
    }

    /// Without the first finished downloads, as many as are too many.
    pub open spec fn forgotten(self, excess: nat) -> DownloadsView
        decreases self.order.len(),
    {
        if excess == 0 || self.order.len() == 0 {
            self
        } else {
            let id = self.order[0];
            let rest = DownloadsView { order: self.order.skip(1), ..self };
            if self.is_settled(id) {
                DownloadsView { jobs: self.jobs.remove(id), ..rest }.forgotten(
                    (excess - 1) as nat,
                )
            } else {
                let end = rest.forgotten(excess);
                DownloadsView { order: seq![id] + end.order, ..end }
            }
        }
    }

    /// With only the latest finished downloads remembered.
    pub open spec fn pruned(self) -> DownloadsView {
        let count = self.settled_count(self.order.len() as int);
        if count > MAX_RECENT_TERMINAL_JOBS {
            self.forgotten((count - MAX_RECENT_TERMINAL_JOBS) as nat)
        } else {
            self
        }
    }

    /// A download as it is shown.
    pub open spec fn shown(self, id: Seq<char>, job: JobView, now: u64) -> ShownJobView {
        let end = match job.finished_at {
            Some(finished) => finished,
            None => now,
        };
        let transferred = if job.transfer_baseline_bytes <= job.downloaded_bytes {
            (job.downloaded_bytes - job.transfer_baseline_bytes) as u64
        } else {
            0
        };
        let transfer = match job.transfer_started_at {
            Some(start) if job.phase == ModelOperationPhase::Downloading && time_between(start, end)
                > 250_000_000 && transferred > 0 => Some((transferred, time_between(start, end))),
            _ => None,
        };
        ShownJobView {
            id,
            model_ref: job.model_ref,
            provider: job.provider,
            repository: job.repository,
            filename: job.filename,
            phase: job.phase,
            downloaded_bytes: job.downloaded_bytes,
            total_bytes: job.total_bytes,
            progress: match job.total_bytes {
                Some(total) if total > 0 => Some(
                    (
                        if job.downloaded_bytes <= total {
                            job.downloaded_bytes
                        } else {
                            total
                        },
                        total,
                    ),
                ),
                _ => None,
            },
            transfer,
            elapsed: match job.started_at {
                Some(start) => time_between(start, end),
                None => time_between(job.enqueued_at, end),
            },
            remaining_bytes: match job.total_bytes {
                Some(total) if transfer is Some && job.downloaded_bytes < total => Some(
                    (total - job.downloaded_bytes) as u64,
                ),
                _ => None,
            },
            queue_position: if job.phase == ModelOperationPhase::Queued {
                match place_in(self.queue, id) {
                    Some(at) => Some(at + 1),
                    None => Some(0),
                }
            } else {
                None
            },
            message: job.message,
        }
    }

    /// The download of a reference that is not over, if there is one.
    pub open spec fn running(self, model_ref: Seq<char>) -> Option<Seq<char>> {
        first_where(
            ordered(self.jobs.dom()),
            |id: Seq<char>|
                self.jobs[id].model_ref == model_ref && !self.jobs[id].phase.over(),
        )
    }

    /// With a new download at the end of the queue.
    pub open spec fn queued(self, model_ref: Seq<char>, id: Seq<char>, now: u64) -> DownloadsView {
        DownloadsView {
            order: self.order.push(id),
            queue: self.queue.push(id),
            ..self
        }.with_job(id, JobView::fresh(model_ref, now))
    }

    /// What comes of asking for a download under an identifier.
    pub open spec fn admitted(self, model_ref: Seq<char>, id: Seq<char>, now: u64) -> (
        DownloadsView,
        AdmissionView,
        Seq<StartView>,
    ) {
        match self.running(model_ref) {
            Some(other) => (
                self,
                AdmissionView::Duplicate(self.shown(other, self.jobs[other], now)),
                Seq::empty(),
            ),
            None => {
                let (end, starts) = self.queued(model_ref, id, now).scheduled(now);
                let job = end.shown(id, end.jobs[id], now);
                (
                    end,
                    if end.active.contains(id) {
                        AdmissionView::Started(job)
                    } else {
                        AdmissionView::Queued(job)
                    },
                    starts,
                )
            },
        }
    }

    /// Why a download cannot be paused, if it cannot.
    pub open spec fn pause_refusal(self, id: Seq<char>) -> Option<Seq<char>> {
        if !self.jobs.contains_key(id) {
            Some("Download job no longer exists"@)
        } else {
            match self.jobs[id].phase {
                ModelOperationPhase::Queued
                | ModelOperationPhase::Resolving
                | ModelOperationPhase::Downloading => None,
                ModelOperationPhase::Paused => Some("Download is already paused"@),
                _ => Some("Download can no longer be paused safely"@),
            }
        }
    }

    /// With a download paused, before others take its place.
    pub open spec fn held(self, id: Seq<char>) -> DownloadsView {
        let job = self.jobs[id];
        if job.phase == ModelOperationPhase::Queued {
            DownloadsView { queue: without(self.queue, id), ..self }.with_job(id, job.paused())
        } else {
            DownloadsView { active: self.active.remove(id), ..self }.with_job(
                id,
                job.told_to_stop().paused(),
            )
        }
    }

    /// Why a download cannot be resumed, if it cannot.
    pub open spec fn resume_refusal(self, id: Seq<char>) -> Option<Seq<char>> {
        if !self.jobs.contains_key(id) {
            Some("Download job no longer exists"@)
        } else if self.jobs[id].phase != ModelOperationPhase::Paused {
            Some("Only a paused download can be resumed"@)
        } else {
            None
        }
    }

    /// With a download resumed, before it or others start.
    pub open spec fn released(self, id: Seq<char>) -> DownloadsView {
        let job = self.jobs[id].resumed();
        DownloadsView {
            queue: if self.jobs[id].active_control is None {
                self.queue.push(id)
            } else {
                self.queue
            },
            ..self
        }.with_job(id, job)
    }

    /// Why a download cannot be cancelled, if it cannot.
    pub open spec fn cancel_refusal(self, id: Seq<char>) -> Option<Seq<char>> {
        if !self.jobs.contains_key(id) {
            Some("Download job no longer exists"@)
        } else {
            match self.jobs[id].phase {
                ModelOperationPhase::Installed
                | ModelOperationPhase::Failed
                | ModelOperationPhase::Cancelled => Some("Download has already finished"@),
                ModelOperationPhase::Verifying
                | ModelOperationPhase::Validating
                | ModelOperationPhase::Installing => Some(
                    "Download is completing an atomic post-download stage"@,
                ),
                _ => None,
            }
        }
    }

    /// With a download cancelled, before others take its place.
    pub open spec fn dropped(self, id: Seq<char>, now: u64) -> DownloadsView {
        DownloadsView {
            queue: without(self.queue, id),
            active: self.active.remove(id),
            ..self
        }.with_job(id, self.jobs[id].cancelled(now))
    }

    /// The files that a cancelled download leaves: none while its attempt still runs.
    pub open spec fn cancel_cleanup(self, id: Seq<char>) -> Set<Seq<char>> {
        if self.jobs[id].active_control is None {
            self.jobs[id].partial_paths
        } else {
            Set::empty()
        }
    }

    /// Whether the end of an attempt is that of the one that runs.
    pub open spec fn is_current(self, id: Seq<char>, generation: u64) -> bool {
        self.jobs.contains_key(id) && self.jobs[id].active_control is Some
            && self.jobs[id].active_control->0.generation == generation
    }

    /// With an attempt over, before others take its place.
    pub open spec fn concluded(
        self,
        id: Seq<char>,
        completion: Option<(ModelOperationPhase, Seq<char>)>,
        now: u64,
    ) -> DownloadsView {
        let job = self.jobs[id];
        DownloadsView {
            active: self.active.remove(id),
            queue: if job.phase == ModelOperationPhase::Paused && job.resume_after_stop {
                self.queue.push(id)
            } else {
                self.queue
            },
            ..self
        }.with_job(id, job.ended(completion, now))
    }

    /// The files that an attempt leaves behind: those of a download that was cancelled, or of one that
    /// is installed now.
    pub open spec fn end_cleanup(
        self,
        id: Seq<char>,
        completion: Option<(ModelOperationPhase, Seq<char>)>,
    ) -> Set<Seq<char>> {
        let job = self.jobs[id];
        match (job.phase, completion) {
            (ModelOperationPhase::Cancelled, _) => job.partial_paths,
            (ModelOperationPhase::Paused, _) => Set::empty(),
            (_, Some((ModelOperationPhase::Installed, _))) => job.partial_paths,
            _ => Set::empty(),
        }
    }
}

} // verus!
