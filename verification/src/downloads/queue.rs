//! The manager of downloads.
use vstd::prelude::*;
use vstd::string::*;

use crate::downloads::{
    identity_from_reference, place_in, time_between, without, ActiveControl, DownloadAdmission,
    DownloadStart, DownloadTransition, DownloadsView, JobRecord, JobView, ModelDownloadJob,
    ModelDownloadJobId, ModelOperationPhase, ModelOperationProgress, ShownJobView, StartView,
    MAX_RECENT_TERMINAL_JOBS,
};
use crate::duplicate::{duplicate_option, lemma_views_push, optional, views, Duplicate};
use crate::outside::is_hyphenated;
use crate::schemas::table_keys;
use crate::table::{lemma_first_where, lemma_first_where_none, ordered, Table};
use crate::text::{chars_of, same};

verus! {

impl JobRecord {
    fn fresh(model_ref: String, now: u64) -> (result: JobRecord)
        ensures
            result@ == JobView::fresh(model_ref@, now),
    {
        let (provider, repository, filename) = identity_from_reference(model_ref.as_str());
        let result = JobRecord {
            model_ref,
            provider,
            repository,
            filename,
            phase: ModelOperationPhase::Queued,
            downloaded_bytes: 0,
            total_bytes: None,
            message: "Waiting for an available download slot".to_owned(),
            enqueued_at: now,
            started_at: None,
            finished_at: None,
            transfer_started_at: None,
            transfer_baseline_bytes: 0,
            generation: 0,
            active_control: None,
            resume_after_stop: false,
            partial_paths: Table::new(),
        };
        proof {
            assert(result.partial_paths@.dom() =~= Set::empty());
        }
        result
    }

    fn start(&mut self, now: u64)
        ensures
            final(self)@ == old(self)@.started(now),
    {
        self.phase = ModelOperationPhase::Resolving;
        self.message = "Resolving exact artifact".to_owned();
        if self.started_at.is_none() {
            self.started_at = Some(now);
        }
        self.generation = if self.generation == u64::MAX {
            1
        } else {
            self.generation + 1
        };
        self.transfer_started_at = None;
        self.transfer_baseline_bytes = self.downloaded_bytes;
        self.active_control = Some(ActiveControl { generation: self.generation, stop: false });
    }

    fn tell_to_stop(&mut self)
        ensures
            final(self)@ == old(self)@.told_to_stop(),
    {
        match self.active_control {
            Some(active) => {
                self.active_control = Some(
                    ActiveControl { generation: active.generation, stop: true },
                );
            },
            None => {},
        }
    }

    fn pause(&mut self)
        ensures
            final(self)@ == old(self)@.paused(),
    {
        self.phase = ModelOperationPhase::Paused;
        self.message = "Paused".to_owned();
        self.transfer_started_at = None;
        self.transfer_baseline_bytes = self.downloaded_bytes;
        self.resume_after_stop = false;
    }

    fn wait(&mut self)
        ensures
            final(self)@ == old(self)@.waiting(),
    {
        self.phase = ModelOperationPhase::Queued;
        self.message = "Waiting for an available download slot".to_owned();
    }

    fn resume(&mut self)
        ensures
            final(self)@ == old(self)@.resumed(),
    {
        self.transfer_started_at = None;
        self.transfer_baseline_bytes = self.downloaded_bytes;
        if self.active_control.is_some() {
            self.resume_after_stop = true;
            self.message = "Resuming after the paused transfer stops".to_owned();
        } else {
            self.wait();
        }
    }

    /// Gives up the files that it knows of.
    fn take_paths(&mut self) -> (result: Vec<String>)
        ensures
            final(self)@ == (JobView { partial_paths: Set::empty(), ..old(self)@ }),
            views(result@) == ordered(old(self)@.partial_paths),
    {
        let paths = table_keys(&self.partial_paths);
        self.partial_paths = Table::new();
        proof {
            assert(self.partial_paths@.dom() =~= Set::empty());
        }
        paths
    }

    fn heeds_generation(&self, generation: Option<u64>) -> (result: bool)
        ensures
            result == self@.heeds(generation),
    {
        match (generation, self.active_control) {
            (None, _) => true,
            (Some(generation), Some(active)) => active.generation == generation,
            (Some(_), None) => false,
        }
    }

    fn report(&mut self, progress: &ModelOperationProgress, generation: Option<u64>, now: u64)
        ensures
            final(self)@ == old(self)@.reported(progress@, generation, now),
    {
        if !self.heeds_generation(generation) || self.phase == ModelOperationPhase::Paused
            || self.phase == ModelOperationPhase::Cancelled {
            return;
        }
        if progress.phase == ModelOperationPhase::Downloading && self.phase
            != ModelOperationPhase::Downloading {
            self.transfer_started_at = Some(now);
            self.transfer_baseline_bytes = progress.downloaded_bytes;
        }
        self.provider = duplicate_option(&progress.provider);
        self.repository = duplicate_option(&progress.repository);
        if chars_of(progress.filename.as_str()).len() > 0 {
            self.filename = Some(progress.filename.clone());
        }
        self.phase = progress.phase;
        if progress.phase.is_terminal() && self.finished_at.is_none() {
            self.finished_at = Some(now);
        }
        self.downloaded_bytes = progress.downloaded_bytes;
        self.total_bytes = progress.total_bytes;
        self.message = progress.message.clone();
    }

    fn is_settled(&self) -> (result: bool)
        ensures
            result == self@.settled(),
    {
        self.phase.is_terminal() && self.active_control.is_none()
    }
}

fn elapsed_between(start: u64, end: u64) -> (result: u64)
    ensures
        result == time_between(start, end),
{
    if start <= end {
        end - start
    } else {
        0
    }
}

fn position(list: &Vec<String>, item: &str) -> (result: Option<usize>)
    ensures
        match (result, place_in(views(list@), item@)) {
            (Some(i), Some(at)) => i == at && i < list@.len(),
            (None, None) => true,
            _ => false,
        },
{
    let ghost all = views(list@);
    let mut i: usize = 0;
    while i < list.len()
        invariant
            i <= list.len(),
            all == views(list@),
            forall|k: int| 0 <= k < i ==> #[trigger] all[k] != item@,
        decreases list.len() - i,
    {
        proof {
            assert(all[i as int] == list@[i as int]@);
        }
        if same(list[i].as_str(), item) {
            proof {
                all.index_of_first_ensures(item@);
                assert(all.contains(item@));
                let first = all.index_of_first(item@)->0;
                if first < i {
                    assert(all[first] != item@);
                }
            }
            return Some(i);
        }
        i += 1;
    }
    proof {
        all.index_of_first_ensures(item@);
    }
    None
}

fn remove_item(list: &Vec<String>, item: &str) -> (result: Vec<String>)
    ensures
        views(result@) == without(views(list@), item@),
{
    let ghost all = views(list@);
    let mut result: Vec<String> = Vec::new();
    let mut i: usize = 0;
    proof {
        assert(views(result@) =~= without(all.take(0), item@));
    }
    while i < list.len()
        invariant
            i <= list.len(),
            all == views(list@),
            views(result@) == without(all.take(i as int), item@),
        decreases list.len() - i,
    {
        proof {
            assert(all.take(i + 1).drop_last() =~= all.take(i as int));
            assert(all.take(i + 1).last() == list@[i as int]@);
        }
        if !same(list[i].as_str(), item) {
            let one = list[i].clone();
            proof {
                lemma_views_push(result@, one);
            }
            result.push(one);
        }
        i += 1;
    }
    proof {
        assert(all.take(all.len() as int) =~= all);
    }
    result
}

/// The downloads of the library.
#[derive(Debug)]
pub struct DownloadManager {
    maximum_parallel: usize,
    jobs: Table<JobRecord>,
    order: Vec<String>,
    queue: Vec<String>,
    active: Table<bool>,
}

impl View for DownloadManager {
    type V = DownloadsView;

    closed spec fn view(&self) -> DownloadsView {
        DownloadsView {
            maximum_parallel: self.maximum_parallel as int,
            jobs: self.jobs@,
            order: views(self.order@),
            queue: views(self.queue@),
            active: self.active@.dom(),
        }
    }
}

impl DownloadManager {
    pub fn new(maximum_parallel: usize) -> (result: DownloadManager)
        ensures
            result@ == DownloadsView::empty(maximum_parallel as int),
    {
        let result = DownloadManager {
            maximum_parallel: if maximum_parallel < 1 {
                1
            } else {
                maximum_parallel
            },
            jobs: Table::new(),
            order: Vec::new(),
            queue: Vec::new(),
            active: Table::new(),
        };
        proof {
            assert(result@ =~= DownloadsView::empty(maximum_parallel as int));
        }
        result
    }

    fn schedule(&mut self, now: u64) -> (starts: Vec<DownloadStart>)
        ensures
            final(self)@ == old(self)@.scheduled(now).0,
            views(starts@) == old(self)@.scheduled(now).1,
    {
        let ghost start = self@;
        let mut starts: Vec<DownloadStart> = Vec::new();
        proof {
            assert(views(starts@) + start.scheduled(now).1 =~= start.scheduled(now).1);
        }
        while self.active.len() < self.maximum_parallel && self.queue.len() > 0
            invariant
                start.scheduled(now).0 == self@.scheduled(now).0,
                start.scheduled(now).1 == views(starts@) + self@.scheduled(now).1,
            decreases self.queue.len(),
        {
            let ghost before = self@;
            let ghost begun = views(starts@);
            let id = self.queue.remove(0);
            proof {
                assert(before.queue[0] == id@);
                assert(self@ =~= (DownloadsView { queue: before.queue.skip(1), ..before }));
            }
            let ghost next = self@;
            match self.jobs.remove(id.as_str()) {
                None => {
                    proof {
                        assert(self@ =~= next);
                    }
                },
                Some(mut job) => {
                    let ghost found = job@;
                    if job.phase != ModelOperationPhase::Queued || job.active_control.is_some() {
                        let _ = self.jobs.insert(id, job);
                        proof {
                            assert(self@.jobs =~= next.jobs);
                            assert(self@ =~= next);
                        }
                    } else {
                        job.start(now);
                        let generation: u64 = job.generation;
                        let _ = self.jobs.insert(id.clone(), job);
                        let _ = self.active.insert(id.clone(), true);
                        let one = DownloadStart { id: ModelDownloadJobId::from_text(id.as_str()), generation };
                        proof {
                            let after = DownloadsView {
                                active: before.active.insert(id@),
                                ..next
                            }.with_job(id@, found.started(now));
                            assert(self@.jobs =~= after.jobs);
                            assert(self@.active =~= after.active);
                            assert(self@ =~= after);
                            lemma_views_push(starts@, one);
                            assert(begun + (seq![one@] + after.scheduled(now).1) =~= begun.push(
                                one@,
                            ) + after.scheduled(now).1);
                        }
                        starts.push(one);
                    }
                },
            }
        }
        proof {
            assert(self.active@.dom().len() == self@.active.len());
            assert(views(starts@) + Seq::<StartView>::empty() =~= views(starts@));
        }
        starts
    }

    fn count_settled(&self) -> (result: usize)
        ensures
            result == self@.settled_count(self@.order.len() as int),
            result <= self@.order.len(),
    {
        let mut count: usize = 0;
        let mut i: usize = 0;
        while i < self.order.len()
            invariant
                i <= self.order.len(),
                count <= i,
                count == self@.settled_count(i as int),
            decreases self.order.len() - i,
        {
            proof {
                assert(self@.order[i as int] == self.order@[i as int]@);
            }
            match self.jobs.get(self.order[i].as_str()) {
                Some(job) => {
                    if job.is_settled() {
                        count += 1;
                    }
                },
                None => {},
            }
            i += 1;
        }
        proof {
            assert(self@.order.len() == self.order@.len());
        }
        count
    }

    fn prune(&mut self)
        ensures
            final(self)@ == old(self)@.pruned(),
    {
        let ghost start = self@;
        let count: usize = self.count_settled();
        if count <= MAX_RECENT_TERMINAL_JOBS {
            return;
        }
        let mut excess: usize = count - MAX_RECENT_TERMINAL_JOBS;
        let ghost goal = start.forgotten(excess as nat);
        let mut kept: Vec<String> = Vec::new();
        let mut i: usize = 0;
        let ghost all = start.order;
        proof {
            assert(all.skip(0) =~= all);
            assert(DownloadsView { order: all.skip(0), ..start } =~= start);
            assert(views(kept@) + goal.order =~= goal.order);
            assert(DownloadsView { order: views(kept@) + goal.order, ..goal } =~= goal);
        }
        while i < self.order.len()
            invariant
                i <= self.order.len(),
                all == views(self.order@),
                self@.order == all,
                ({
                    let rest = DownloadsView { order: all.skip(i as int), ..self@ }.forgotten(
                        excess as nat,
                    );
                    goal == DownloadsView { order: views(kept@) + rest.order, ..rest }
                }),
            decreases self.order.len() - i,
        {
            let ghost now = DownloadsView { order: all.skip(i as int), ..self@ };
            let ghost done = views(kept@);
            let id = self.order[i].clone();
            proof {
                assert(now.order[0] == id@);
                assert(now.order.skip(1) =~= all.skip(i + 1));
                assert(all.skip(i as int) =~= seq![id@] + all.skip(i + 1));
            }
            let settled = match self.jobs.get(id.as_str()) {
                Some(job) => job.is_settled(),
                None => false,
            };
            if excess > 0 && settled {
                let _ = self.jobs.remove(id.as_str());
                excess -= 1;
                proof {
                    assert(DownloadsView { order: all.skip(i + 1), ..self@ } =~= (DownloadsView {
                        jobs: now.jobs.remove(id@),
                        order: now.order.skip(1),
                        ..now
                    }));
                }
            } else {
                proof {
                    let rest = DownloadsView { order: all.skip(i + 1), ..self@ };
                    assert(rest =~= (DownloadsView { order: now.order.skip(1), ..now }));
                    let end = rest.forgotten(excess as nat);
                    assert(now.forgotten(excess as nat).order =~= seq![id@] + end.order);
                    assert(now.forgotten(excess as nat) =~= (DownloadsView {
                        order: seq![id@] + end.order,
                        ..end
                    }));
                    lemma_views_push(kept@, id);
                    assert(done + (seq![id@] + end.order) =~= done.push(id@) + end.order);
                }
                kept.push(id);
            }
            i += 1;
        }
        proof {
            assert(all.skip(i as int) =~= Seq::empty());
            let rest = DownloadsView { order: all.skip(i as int), ..self@ };
            assert(rest.forgotten(excess as nat) == rest);
            assert(views(kept@) + Seq::<Seq<char>>::empty() =~= views(kept@));
        }
        self.order = kept;
        proof {
            assert(self@ =~= goal);
        }
    }

    fn show(&self, id: &str, job: &JobRecord, now: u64) -> (result: ModelDownloadJob)
        ensures
            result@ == self@.shown(id@, job@, now),
    {
        let end: u64 = match job.finished_at {
            Some(finished) => finished,
            None => now,
        };
        let elapsed: u64 = match job.started_at {
            Some(start) => elapsed_between(start, end),
            None => elapsed_between(job.enqueued_at, end),
        };
        let transferred: u64 = elapsed_between(job.transfer_baseline_bytes, job.downloaded_bytes);
        let transfer = match job.transfer_started_at {
            Some(start) => {
                let spent: u64 = elapsed_between(start, end);
                if job.phase == ModelOperationPhase::Downloading && spent > 250_000_000
                    && transferred > 0 {
                    Some((transferred, spent))
                } else {
                    None
                }
            },
            None => None,
        };
        let progress = match job.total_bytes {
            Some(total) => {
                if total > 0 {
                    Some(
                        (
                            if job.downloaded_bytes <= total {
                                job.downloaded_bytes
                            } else {
                                total
                            },
                            total,
                        ),
                    )
                } else {
                    None
                }
            },
            None => None,
        };
        let remaining_bytes = match job.total_bytes {
            Some(total) => {
                if transfer.is_some() && job.downloaded_bytes < total {
                    Some(total - job.downloaded_bytes)
                } else {
                    None
                }
            },
            None => None,
        };
        let waiting: usize = self.queue.len();
        let queue_position = if job.phase == ModelOperationPhase::Queued {
            match position(&self.queue, id) {
                Some(at) => Some(at + 1),
                None => Some(0usize),
            }
        } else {
            None
        };
        ModelDownloadJob {
            id: ModelDownloadJobId::from_text(id),
            model_ref: job.model_ref.clone(),
            provider: duplicate_option(&job.provider),
            repository: duplicate_option(&job.repository),
            filename: duplicate_option(&job.filename),
            phase: job.phase,
            downloaded_bytes: job.downloaded_bytes,
            total_bytes: job.total_bytes,
            progress,
            transfer,
            elapsed,
            remaining_bytes,
            queue_position,
            message: job.message.clone(),
        }
    }

    fn find_running(&self, model_ref: &str) -> (result: Option<usize>)
        ensures
            match result {
                Some(i) => i < self.jobs.keys().len() && self@.running(model_ref@) == Some(
                    self.jobs.keys()[i as int],
                ) && self.jobs@.dom().contains(self.jobs.keys()[i as int]),
                None => self@.running(model_ref@) is None,
            },
    {
        let count: usize = self.jobs.len();
        let ghost keys = self.jobs.keys();
        let ghost state = self@;
        let ghost test = |id: Seq<char>|
            state.jobs[id].model_ref == model_ref@ && !state.jobs[id].phase.over();
        let mut i: usize = 0;
        while i < count
            invariant
                i <= count,
                count == keys.len(),
                keys == self.jobs.keys(),
                keys == ordered(state.jobs.dom()),
                state == self@,
                forall|k: int| 0 <= k < keys.len() ==> state.jobs.dom().contains(
                    #[trigger] keys[k],
                ),
                test == (|id: Seq<char>|
                    state.jobs[id].model_ref == model_ref@ && !state.jobs[id].phase.over()),
                forall|k: int| 0 <= k < i ==> !test(#[trigger] keys[k]),
            decreases count - i,
        {
            let job = self.jobs.value_at(i);
            if same(job.model_ref.as_str(), model_ref) && !job.phase.is_terminal() {
                proof {
                    lemma_first_where(keys, test, i as int);
                }
                return Some(i);
            }
            i += 1;
        }
        proof {
            lemma_first_where_none(keys, test);
        }
        None
    }

    /// Asks for a download under an identifier. A reference that is not over yet is not downloaded
    /// again.
    pub fn enqueue_as(&mut self, model_ref: String, id: &ModelDownloadJobId, now: u64) -> (result: (
        DownloadAdmission,
        Vec<DownloadStart>,
    ))
        ensures
            final(self)@ == old(self)@.admitted(model_ref@, id@, now).0,
            result.0@ == old(self)@.admitted(model_ref@, id@, now).1,
            views(result.1@) == old(self)@.admitted(model_ref@, id@, now).2,
    {
        match self.find_running(model_ref.as_str()) {
            Some(at) => {
                let key = self.jobs.key_at(at).clone();
                let job = self.show(key.as_str(), self.jobs.value_at(at), now);
                let starts: Vec<DownloadStart> = Vec::new();
                proof {
                    assert(views(starts@) =~= Seq::empty());
                }
                return (DownloadAdmission::Duplicate(job), starts);
            },
            None => {},
        }
        let ghost before = self@;
        let ghost reference = model_ref@;
        let listed = id.text().to_owned();
        let waiting = id.text().to_owned();
        proof {
            lemma_views_push(self.order@, listed);
            lemma_views_push(self.queue@, waiting);
        }
        self.order.push(listed);
        self.queue.push(waiting);
        let _ = self.jobs.insert(id.text().to_owned(), JobRecord::fresh(model_ref, now));
        proof {
            assert(self@ =~= before.queued(reference, id@, now));
            crate::downloads::laws::lemma_scheduled_keeps(self@, now, id@);
        }
        let starts = self.schedule(now);
        let started = self.active.contains(id.text());
        match self.jobs.get(id.text()) {
            Some(record) => {
                let job = self.show(id.text(), record, now);
                if started {
                    (DownloadAdmission::Started(job), starts)
                } else {
                    (DownloadAdmission::Queued(job), starts)
                }
            },
            None => {
                proof {
                    assert(false);
                }
                let record = JobRecord::fresh(String::new(), now);
                (DownloadAdmission::Queued(self.show(id.text(), &record, now)), starts)
            },
        }
    }

    /// Asks for a download under a fresh identifier.
    pub fn enqueue(&mut self, model_ref: String, now: u64) -> (result: (
        DownloadAdmission,
        Vec<DownloadStart>,
    ))
        ensures
            exists|id: Seq<char>| #[trigger]
                is_hyphenated(id) && (
                    final(self)@,
                    result.0@,
                    views(result.1@),
                ) == old(self)@.admitted(model_ref@, id, now),
    {
        let id = ModelDownloadJobId::new();
        self.enqueue_as(model_ref, &id, now)
    }

    pub fn set_maximum_parallel(&mut self, maximum_parallel: usize, now: u64) -> (starts: Vec<
        DownloadStart,
    >)
        ensures
            ({
                let changed = DownloadsView {
                    maximum_parallel: if maximum_parallel < 1 {
                        1
                    } else {
                        maximum_parallel as int
                    },
                    ..old(self)@
                };
                final(self)@ == changed.scheduled(now).0 && views(starts@) == changed.scheduled(
                    now,
                ).1
            }),
    {
        self.maximum_parallel = if maximum_parallel < 1 {
            1
        } else {
            maximum_parallel
        };
        self.schedule(now)
    }

    pub fn maximum_parallel(&self) -> (result: usize)
        ensures
            result == self@.maximum_parallel,
    {
        self.maximum_parallel
    }

    pub fn model_ref(&self, id: &ModelDownloadJobId) -> (result: Option<String>)
        ensures
            optional(result) == if self@.jobs.contains_key(id@) {
                Some(self@.jobs[id@].model_ref)
            } else {
                None
            },
    {
        match self.jobs.get(id.text()) {
            Some(job) => Some(job.model_ref.clone()),
            None => None,
        }
    }

    /// Whether an attempt was told to stop.
    pub fn stop_requested(&self, id: &ModelDownloadJobId, generation: u64) -> (result: bool)
        ensures
            result == (self@.is_current(id@, generation)
                && self@.jobs[id@].active_control->0.stop),
    {
        match self.jobs.get(id.text()) {
            Some(job) => match job.active_control {
                Some(active) => active.generation == generation && active.stop,
                None => false,
            },
            None => false,
        }
    }

    /// Takes a report of how a download goes on.
    pub fn update(&mut self, progress: &ModelOperationProgress, generation: Option<u64>, now: u64)
        ensures
            final(self)@ == if old(self)@.jobs.contains_key(progress@.job_id) {
                old(self)@.with_job(
                    progress@.job_id,
                    old(self)@.jobs[progress@.job_id].reported(progress@, generation, now),
                )
            } else {
                old(self)@
            },
    {
        let ghost before = self@;
        match self.jobs.remove(progress.job_id.text()) {
            Some(mut job) => {
                job.report(progress, generation, now);
                let ghost after = job@;
                let _ = self.jobs.insert(progress.job_id.text().to_owned(), job);
                proof {
                    assert(self@ =~= before.with_job(progress@.job_id, after));
                }
            },
            None => {
                proof {
                    assert(self@ =~= before);
                }
            },
        }
    }

    /// Notes the files that an attempt writes to.
    pub fn register_partial_paths(
        &mut self,
        id: &ModelDownloadJobId,
        generation: Option<u64>,
        paths: &Vec<String>,
    )
        ensures
            final(self)@ == if old(self)@.jobs.contains_key(id@) && old(self)@.jobs[id@].heeds(
                generation,
            ) {
                old(self)@.with_job(
                    id@,
                    JobView {
                        partial_paths: old(self)@.jobs[id@].partial_paths + views(paths@).to_set(),
                        ..old(self)@.jobs[id@]
                    },
                )
            } else {
                old(self)@
            },
    {
        let ghost before = self@;
        match self.jobs.remove(id.text()) {
            Some(mut job) => {
                let ghost found = job@;
                if job.heeds_generation(generation) {
                    let ghost all = views(paths@);
                    let mut i: usize = 0;
                    proof {
                        assert(found.partial_paths + all.take(0).to_set() =~= found.partial_paths);
                    }
                    while i < paths.len()
                        invariant
                            i <= paths.len(),
                            all == views(paths@),
                            job@ == (JobView {
                                partial_paths: found.partial_paths + all.take(i as int).to_set(),
                                ..found
                            }),
                        decreases paths.len() - i,
                    {
                        proof {
                            crate::table::lemma_take_grows(all, i as int);
                        }
                        let ghost set = job@.partial_paths;
                        let _ = job.partial_paths.insert(paths[i].clone(), true);
                        proof {
                            assert(job@.partial_paths =~= set.insert(all[i as int]));
                            assert(job@.partial_paths =~= found.partial_paths + all.take(
                                i + 1,
                            ).to_set());
                        }
                        i += 1;
                    }
                    proof {
                        assert(all.take(all.len() as int) =~= all);
                    }
                }
                let ghost after = job@;
                let _ = self.jobs.insert(id.text().to_owned(), job);
                proof {
                    assert(self@ =~= before.with_job(id@, after));
                    if after == found {
                        assert(self@ =~= before);
                    }
                }
            },
            None => {
                proof {
                    assert(self@ =~= before);
                }
            },
        }
    }

    /// Pauses a download: its place goes to the next one, and its attempt is told to stop.
    pub fn pause(&mut self, id: &ModelDownloadJobId, now: u64) -> (result: Result<
        (ModelDownloadJob, Vec<DownloadStart>),
        String,
    >)
        ensures
            match (result, old(self)@.pause_refusal(id@)) {
                (Err(error), Some(reason)) => error@ == reason && final(self)@ == old(self)@,
                (Ok((job, starts)), None) => {
                    let (end, begun) = old(self)@.held(id@).scheduled(now);
                    final(self)@ == end && views(starts@) == begun && job@ == end.shown(
                        id@,
                        end.jobs[id@],
                        now,
                    )
                },
                _ => false,
            },
    {
        let ghost before = self@;
        let phase = match self.jobs.get(id.text()) {
            Some(job) => job.phase,
            None => {
                return Err("Download job no longer exists".to_owned());
            },
        };
        match phase {
            ModelOperationPhase::Queued
            | ModelOperationPhase::Resolving
            | ModelOperationPhase::Downloading => {},
            ModelOperationPhase::Paused => {
                return Err("Download is already paused".to_owned());
            },
            _ => {
                return Err("Download can no longer be paused safely".to_owned());
            },
        }
        if phase == ModelOperationPhase::Queued {
            self.queue = remove_item(&self.queue, id.text());
        } else {
            let _ = self.active.remove(id.text());
        }
        match self.jobs.remove(id.text()) {
            Some(mut job) => {
                if phase != ModelOperationPhase::Queued {
                    job.tell_to_stop();
                }
                job.pause();
                let _ = self.jobs.insert(id.text().to_owned(), job);
            },
            None => {},
        }
        proof {
            assert(self@.active =~= before.held(id@).active);
            assert(self@ =~= before.held(id@));
            crate::downloads::laws::lemma_scheduled_keeps(self@, now, id@);
        }
        let starts = self.schedule(now);
        match self.jobs.get(id.text()) {
            Some(record) => Ok((self.show(id.text(), record, now), starts)),
            None => {
                proof {
                    assert(false);
                }
                Err("Download job no longer exists".to_owned())
            },
        }
    }

    /// Resumes a paused download.
    pub fn resume(&mut self, id: &ModelDownloadJobId, now: u64) -> (result: Result<
        (ModelDownloadJob, Vec<DownloadStart>),
        String,
    >)
        ensures
            match (result, old(self)@.resume_refusal(id@)) {
                (Err(error), Some(reason)) => error@ == reason && final(self)@ == old(self)@,
                (Ok((job, starts)), None) => {
                    let (end, begun) = old(self)@.released(id@).scheduled(now);
                    final(self)@ == end && views(starts@) == begun && job@ == end.shown(
                        id@,
                        end.jobs[id@],
                        now,
                    )
                },
                _ => false,
            },
    {
        let ghost before = self@;
        let (phase, idle) = match self.jobs.get(id.text()) {
            Some(job) => (job.phase, job.active_control.is_none()),
            None => {
                return Err("Download job no longer exists".to_owned());
            },
        };
        if phase != ModelOperationPhase::Paused {
            return Err("Only a paused download can be resumed".to_owned());
        }
        match self.jobs.remove(id.text()) {
            Some(mut job) => {
                job.resume();
                let _ = self.jobs.insert(id.text().to_owned(), job);
            },
            None => {},
        }
        if idle {
            let waiting = id.text().to_owned();
            proof {
                lemma_views_push(self.queue@, waiting);
            }
            self.queue.push(waiting);
        }
        proof {
            assert(self@ =~= before.released(id@));
            crate::downloads::laws::lemma_scheduled_keeps(self@, now, id@);
        }
        let starts = self.schedule(now);
        match self.jobs.get(id.text()) {
            Some(record) => Ok((self.show(id.text(), record, now), starts)),
            None => {
                proof {
                    assert(false);
                }
                Err("Download job no longer exists".to_owned())
            },
        }
    }

    /// Cancels a download. Its files go at once, or, while its attempt still runs, at the end of that.
    pub fn cancel(&mut self, id: &ModelDownloadJobId, now: u64) -> (result: Result<
        (ModelDownloadJob, DownloadTransition),
        String,
    >)
        ensures
            match (result, old(self)@.cancel_refusal(id@)) {
                (Err(error), Some(reason)) => error@ == reason && final(self)@ == old(self)@,
                (Ok((job, transition)), None) => {
                    let (end, begun) = old(self)@.dropped(id@, now).scheduled(now);
                    &&& final(self)@ == end.pruned()
                    &&& views(transition.starts@) == begun
                    &&& views(transition.cleanup@) == ordered(old(self)@.cancel_cleanup(id@))
                    &&& job@ == end.shown(id@, end.jobs[id@], now)
                },
                _ => false,
            },
    {
        let ghost before = self@;
        let phase = match self.jobs.get(id.text()) {
            Some(job) => job.phase,
            None => {
                return Err("Download job no longer exists".to_owned());
            },
        };
        match phase {
            ModelOperationPhase::Installed
            | ModelOperationPhase::Failed
            | ModelOperationPhase::Cancelled => {
                return Err("Download has already finished".to_owned());
            },
            ModelOperationPhase::Verifying
            | ModelOperationPhase::Validating
            | ModelOperationPhase::Installing => {
                return Err("Download is completing an atomic post-download stage".to_owned());
            },
            _ => {},
        }
        self.queue = remove_item(&self.queue, id.text());
        let _ = self.active.remove(id.text());
        let mut cleanup: Vec<String> = Vec::new();
        match self.jobs.remove(id.text()) {
            Some(mut job) => {
                let ghost found = job@;
                if job.active_control.is_none() {
                    cleanup = job.take_paths();
                } else {
                    job.tell_to_stop();
                    proof {
                        assert(views(cleanup@) =~= Seq::empty());
                        lemma_no_keys();
                    }
                }
                job.phase = ModelOperationPhase::Cancelled;
                job.message = "Download cancelled".to_owned();
                job.finished_at = Some(now);
                job.resume_after_stop = false;
                job.transfer_started_at = None;
                proof {
                    assert(job@ =~= found.cancelled(now));
                }
                let _ = self.jobs.insert(id.text().to_owned(), job);
            },
            None => {},
        }
        proof {
            assert(self@.active =~= before.dropped(id@, now).active);
            assert(self@ =~= before.dropped(id@, now));
            crate::downloads::laws::lemma_scheduled_keeps(self@, now, id@);
        }
        let starts = self.schedule(now);
        let job = match self.jobs.get(id.text()) {
            Some(record) => self.show(id.text(), record, now),
            None => {
                proof {
                    assert(false);
                }
                return Err("Download job no longer exists".to_owned());
            },
        };
        self.prune();
        Ok((job, DownloadTransition { starts, cleanup }))
    }

    /// Takes note that an attempt is over, and of what came of it where it ran to its end. One that is
    /// not the current one changes nothing.
    pub fn finish_attempt(
        &mut self,
        id: &ModelDownloadJobId,
        generation: u64,
        completion: Option<(ModelOperationPhase, String)>,
        now: u64,
    ) -> (result: DownloadTransition)
        ensures
            ({
                let told = completion_view(completion);
                if !old(self)@.is_current(id@, generation) {
                    final(self)@ == old(self)@ && result.starts@.len() == 0
                        && result.cleanup@.len() == 0
                } else {
                    let (end, begun) = old(self)@.concluded(id@, told, now).scheduled(now);
                    &&& final(self)@ == end.pruned()
                    &&& views(result.starts@) == begun
                    &&& views(result.cleanup@) == ordered(old(self)@.end_cleanup(id@, told))
                }
            }),
    {
        let ghost before = self@;
        let ghost told = completion_view(completion);
        let current = match self.jobs.get(id.text()) {
            Some(job) => match job.active_control {
                Some(active) => active.generation == generation,
                None => false,
            },
            None => false,
        };
        if !current {
            return DownloadTransition { starts: Vec::new(), cleanup: Vec::new() };
        }
        let _ = self.active.remove(id.text());
        let mut cleanup: Vec<String> = Vec::new();
        proof {
            assert(views(cleanup@) =~= Seq::empty());
            lemma_no_keys();
        }
        match self.jobs.remove(id.text()) {
            Some(mut job) => {
                let ghost found = job@;
                job.active_control = None;
                if job.phase == ModelOperationPhase::Paused {
                    if job.resume_after_stop {
                        job.resume_after_stop = false;
                        job.wait();
                        let waiting = id.text().to_owned();
                        proof {
                            lemma_views_push(self.queue@, waiting);
                        }
                        self.queue.push(waiting);
                    }
                } else if job.phase == ModelOperationPhase::Cancelled {
                    cleanup = job.take_paths();
                } else {
                    match completion {
                        Some((phase, message)) => {
                            job.phase = phase;
                            job.message = message;
                            if phase.is_terminal() && job.finished_at.is_none() {
                                job.finished_at = Some(now);
                            }
                            if phase == ModelOperationPhase::Installed {
                                cleanup = job.take_paths();
                            }
                        },
                        None => {},
                    }
                }
                proof {
                    assert(job@ =~= found.ended(told, now));
                }
                let _ = self.jobs.insert(id.text().to_owned(), job);
            },
            None => {},
        }
        proof {
            assert(self@.active =~= before.concluded(id@, told, now).active);
            assert(self@ =~= before.concluded(id@, told, now));
        }
        let starts = self.schedule(now);
        self.prune();
        DownloadTransition { starts, cleanup }
    }

    /// The downloads in the order that they came in.
    pub fn snapshots(&self, now: u64) -> (result: Vec<ModelDownloadJob>)
        ensures
            views(result@) == shown_jobs(self@, self@.order.len() as int, now),
    {
        let mut result: Vec<ModelDownloadJob> = Vec::new();
        let mut i: usize = 0;
        proof {
            assert(views(result@) =~= Seq::empty());
        }
        while i < self.order.len()
            invariant
                i <= self.order.len(),
                views(result@) == shown_jobs(self@, i as int, now),
            decreases self.order.len() - i,
        {
            proof {
                assert(self@.order[i as int] == self.order@[i as int]@);
            }
            match self.jobs.get(self.order[i].as_str()) {
                Some(record) => {
                    let job = self.show(self.order[i].as_str(), record, now);
                    proof {
                        lemma_views_push(result@, job);
                    }
                    result.push(job);
                },
                None => {},
            }
            i += 1;
        }
        proof {
            assert(self@.order.len() == self.order@.len());
        }
        result
    }
}

/// What came of an attempt.
pub open spec fn completion_view(completion: Option<(ModelOperationPhase, String)>) -> Option<
    (ModelOperationPhase, Seq<char>),
> {
    match completion {
        Some((phase, message)) => Some((phase, message@)),
        None => None,
    }
}

/// The first downloads as they are shown.
pub open spec fn shown_jobs(state: DownloadsView, count: int, now: u64) -> Seq<ShownJobView>
    decreases count,
{
    if count <= 0 {
        Seq::empty()
    } else {
        let before = shown_jobs(state, count - 1, now);
        let id = state.order[count - 1];
        if state.jobs.contains_key(id) {
            before.push(state.shown(id, state.jobs[id], now))
        } else {
            before
        }
    }
}

proof fn lemma_no_keys()
    ensures
        ordered(Set::<Seq<char>>::empty()) == Seq::<Seq<char>>::empty(),
{
    let none = Seq::<Seq<char>>::empty();
    assert(none.to_set() =~= Set::<Seq<char>>::empty());
    crate::table::lemma_ordered_is(Set::empty(), none);
}

} // verus!
