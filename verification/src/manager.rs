//! The manager of backends: admission, reservation, progress, failure, retirement, routing of
//! requests and reclaiming of idle backends.
use vstd::prelude::*;
use vstd::string::*;

use crate::backend::{
    BackendView, EffectiveGenerationSettings, GenerationView, ManagedBackend, ProvenanceView,
    RuntimeProvenance,
};
use crate::duplicate::{
    duplicate_list, duplicate_option, lemma_views_push, optional, views, Duplicate,
};
use crate::engines::{
    accept_probe, probe_outcome, EngineIdentity, EngineProbe, EngineStatus, EngineStatusView,
    InstallationState,
};
use crate::lifecycle::{
    BackendLifecycle, BackendLoadPhase, BackendLoadProgress, BackendResidency, ErrorView, ModelRole,
    NoticeView, ProgressView, RuntimeError, RuntimeManagerOptions, RuntimeNotice,
    RuntimeNoticeLevel,
};
use crate::supervisor::{exit_detail, exit_text, ProcessDescriptor, ProcessExit, ProcessView, ExitView};
use crate::table::{
    count_where, first_where, lemma_first_where, lemma_first_where_none, ordered, Table,
};
use crate::text::{cat3, cat4, cat5, same, same_optional};

pub mod laws;
pub mod load;
pub mod reclaim;

verus! {

/// How many notices are kept.
pub const NOTICE_LIMIT: usize = 64;

/// What a load says of itself when it was called off.
pub open spec fn cancelled_text() -> Seq<char> {
    "model load was cancelled"@
}

/// A conversation: the Model Profile that serves it and when it was last heard of.
#[derive(Debug)]
pub struct SessionState {
    pub primary: Option<String>,
    pub last_used_unix: i64,
}

#[verifier::ext_equal]
pub struct SessionView {
    pub primary: Option<Seq<char>>,
    pub last_used_unix: i64,
}

impl View for SessionState {
    type V = SessionView;

    open spec fn view(&self) -> SessionView {
        SessionView { primary: optional(self.primary), last_used_unix: self.last_used_unix }
    }
}

/// Who a request belongs to and, if it says so, in which role it wants its Model Profile.
#[derive(Debug)]
pub struct InferenceRoutingContext {
    pub session_id: String,
    pub role: Option<ModelRole>,
}

impl Default for InferenceRoutingContext {
    fn default() -> (result: InferenceRoutingContext)
        ensures
            result.session_id@ == "default"@,
            result.role is None,
    {
        InferenceRoutingContext { session_id: "default".to_owned(), role: None }
    }
}

/// All that the manager knows.
pub struct RuntimeManager {
    options: RuntimeManagerOptions,
    public_endpoint: Option<String>,
    engines: Table<EngineStatus>,
    backends: Table<ManagedBackend>,
    sessions: Table<SessionState>,
    next_generation: u64,
    notices: Vec<RuntimeNotice>,
    cancellation_epoch: u64,
    shutting_down: bool,
}

#[verifier::ext_equal]
pub struct ManagerView {
    pub options: RuntimeManagerOptions,
    pub public_endpoint: Option<Seq<char>>,
    pub engines: Map<Seq<char>, EngineStatusView>,
    pub backends: Map<Seq<char>, BackendView>,
    pub sessions: Map<Seq<char>, SessionView>,
    pub next_generation: u64,
    pub notices: Seq<NoticeView>,
    pub cancellation_epoch: u64,
    pub shutting_down: bool,
}

impl View for RuntimeManager {
    type V = ManagerView;

    closed spec fn view(&self) -> ManagerView {
        ManagerView {
            options: self.options,
            public_endpoint: optional(self.public_endpoint),
            engines: self.engines@,
            backends: self.backends@,
            sessions: self.sessions@,
            next_generation: self.next_generation,
            notices: views(self.notices@),
            cancellation_epoch: self.cancellation_epoch,
            shutting_down: self.shutting_down,
        }
    }
}

/// The generation after another; the count begins again at zero when it is exhausted.
pub open spec fn next_after(generation: u64) -> u64 {
    if generation == u64::MAX {
        0
    } else {
        (generation + 1) as u64
    }
}

/// The time since an earlier moment, as far as a machine number holds it.
pub open spec fn since(now: i64, then: i64) -> int {
    if now - then > i64::MAX {
        i64::MAX as int
    } else if now - then < i64::MIN {
        i64::MIN as int
    } else {
        now - then
    }
}

pub fn time_since(now: i64, then: i64) -> (result: i64)
    ensures
        result == since(now, then),
{
    let difference: i128 = now as i128 - then as i128;
    if difference > i64::MAX as i128 {
        i64::MAX
    } else if difference < i64::MIN as i128 {
        i64::MIN
    } else {
        difference as i64
    }
}

impl ManagerView {
    /// What holds of a manager at all times: no more notices than are kept, finitely many backends,
    /// each under its own Model Profile, and a process behind each one that runs.
    pub open spec fn wf(self) -> bool {
        &&& self.notices.len() <= NOTICE_LIMIT
        &&& self.backends.dom().finite()
        &&& forall|id: Seq<char>| #[trigger]
            self.backends.dom().contains(id) ==> self.backends[id].model_profile_id == id && (
            self.backends[id].lifecycle == BackendLifecycle::Running ==> self.backends[id].running is Some)
    }

    /// No backend has a generation above the latest one, and no two have the same. It holds from the
    /// start until the counter of generations runs over.
    pub open spec fn generations_ordered(self) -> bool {
        &&& forall|id: Seq<char>| #[trigger]
            self.backends.dom().contains(id) ==> self.backends[id].generation <= self.next_generation
        &&& forall|first: Seq<char>, second: Seq<char>| #[trigger]
            self.backends.dom().contains(first) && #[trigger] self.backends.dom().contains(second)
                && first != second ==> self.backends[first].generation
                != self.backends[second].generation
    }

    /// Whether no load was begun on the way to a later state: each backend that is there was there
    /// before, under the same generation, and one that is loading was loading. A load that was
    /// called off stays called off.
    pub open spec fn begins_no_load(self, after: Self) -> bool {
        &&& after.next_generation == self.next_generation
        &&& forall|id: Seq<char>| #[trigger]
            after.backends.dom().contains(id) ==> self.backends.dom().contains(id)
                && after.backends[id].generation == self.backends[id].generation && (
            after.backends[id].lifecycle == BackendLifecycle::Loading ==> self.backends[id].lifecycle
                == BackendLifecycle::Loading && after.backends[id].cancel_loading
                == self.backends[id].cancel_loading)
        &&& self.shutting_down ==> after.shutting_down
        &&& after.shutting_down || after.cancellation_epoch == self.cancellation_epoch
    }

    /// Whether a load or an unload of a Model Profile is under way.
    pub open spec fn under_way(self, id: Seq<char>) -> bool {
        self.backends.dom().contains(id) && (self.backends[id].lifecycle == BackendLifecycle::Loading
            || self.backends[id].lifecycle == BackendLifecycle::Stopping)
    }

    /// Whether neither a load nor an unload was begun on the way to a later state.
    pub open spec fn begins_nothing(self, after: Self) -> bool {
        &&& self.begins_no_load(after)
        &&& forall|id: Seq<char>| #[trigger] after.under_way(id) ==> self.under_way(id)
    }

    pub open spec fn noticed(self, now: i64, level: RuntimeNoticeLevel, message: Seq<char>) -> Self {
        let kept = if self.notices.len() == NOTICE_LIMIT {
            self.notices.skip(1)
        } else {
            self.notices
        };
        ManagerView {
            notices: kept.push(NoticeView { timestamp_unix: now, level, message }),
            ..self
        }
    }

    pub open spec fn with_backend(self, id: Seq<char>, backend: BackendView) -> Self {
        ManagerView { backends: self.backends.insert(id, backend), ..self }
    }

    /// Whether a load that began in some epoch is called off.
    pub open spec fn cancelled(self, epoch: u64) -> bool {
        self.shutting_down || self.cancellation_epoch != epoch
    }

    /// The Model Profile whose backend has a generation.
    pub open spec fn holder(self, generation: u64) -> Option<Seq<char>> {
        first_where(
            ordered(self.backends.dom()),
            |id: Seq<char>| self.backends[id].generation == generation,
        )
    }

    pub open spec fn reserved(
        self,
        profile_id: Seq<char>,
        model_id: Seq<char>,
        role: ModelRole,
        residency: BackendResidency,
        now: i64,
    ) -> Self {
        let generation = next_after(self.next_generation);
        ManagerView { next_generation: generation, ..self }.with_backend(
            profile_id,
            BackendView {
                lifecycle: BackendLifecycle::Loading,
                model_profile_id: profile_id,
                model_id,
                profile_role: role,
                residency,
                engine_id: None,
                runtime_id: None,
                running: None,
                loading_process: None,
                loading_lease_held: false,
                cancel_loading: false,
                load_progress: Some(ProgressView::indeterminate(BackendLoadPhase::Starting)),
                failure: None,
                provenance: None,
                generation,
                active_requests: 0,
                last_used_unix: now,
                retiring: false,
            },
        ).noticed(
            now,
            RuntimeNoticeLevel::Info,
            "Loading Model Profile "@ + profile_id + " (artifact "@ + model_id + ")"@,
        )
    }

    pub open spec fn progressed(self, generation: u64, progress: ProgressView) -> Self {
        match self.holder(generation) {
            Some(id) => self.with_backend(id, self.backends[id].progressed(generation, progress)),
            None => self,
        }
    }

    /// What a failed load is recorded with: the phase that it failed in, unless it was called off.
    pub open spec fn failure_detail(backend: BackendView, detail: Seq<char>) -> Seq<char> {
        if backend.load_progress is Some && !backend.cancel_loading && backend.lifecycle
            == BackendLifecycle::Loading && detail != cancelled_text() {
            "failed while "@ + backend.load_progress->0.phase.failure_text() + ": "@ + detail
        } else {
            detail
        }
    }

    /// A backend after its load failed, with the process that could not be ended, if there is one.
    pub open spec fn failed_backend(
        backend: BackendView,
        detail: Seq<char>,
        process: Option<ProcessView>,
    ) -> BackendView {
        BackendView {
            lifecycle: BackendLifecycle::Failed,
            failure: Some(Self::failure_detail(backend, detail)),
            running: None,
            loading_process: process,
            runtime_id: if process is None {
                None
            } else {
                backend.runtime_id
            },
            loading_lease_held: process is Some && backend.loading_lease_held,
            cancel_loading: false,
            load_progress: None,
            provenance: match backend.provenance {
                Some(provenance) => Some(
                    if process is Some {
                        ProvenanceView { process_id: process->0.process_id, ..provenance }
                    } else {
                        provenance
                    },
                ),
                None => None,
            },
            ..backend
        }
    }

    pub open spec fn failed(
        self,
        generation: u64,
        detail: Seq<char>,
        process: Option<ProcessView>,
        now: i64,
    ) -> Self {
        match self.holder(generation) {
            Some(id) => {
                let backend = self.backends[id];
                self.with_backend(id, Self::failed_backend(backend, detail, process)).noticed(
                    now,
                    RuntimeNoticeLevel::Error,
                    "Model Profile "@ + backend.model_profile_id + " startup failed: "@
                        + Self::failure_detail(backend, detail),
                )
            },
            None => self,
        }
    }

    /// The backend that an operation is under way on, by ascending Model Profile.
    pub open spec fn current(self) -> BackendLifecycle {
        match first_where(
            ordered(self.backends.dom()),
            |id: Seq<char>|
                self.backends[id].lifecycle == BackendLifecycle::Loading
                    || self.backends[id].lifecycle == BackendLifecycle::Stopping,
        ) {
            Some(id) => self.backends[id].lifecycle,
            None => BackendLifecycle::Stopped,
        }
    }

    /// The sessions without one Model Profile as their primary.
    pub open spec fn sessions_without(self, profile_id: Seq<char>) -> Map<Seq<char>, SessionView> {
        self.sessions.map_values(
            |session: SessionView|
                if session.primary == Some(profile_id) {
                    SessionView { primary: None, ..session }
                } else {
                    session
                },
        )
    }

    /// Whether some session is served by a Model Profile.
    pub open spec fn leased(self, profile_id: Seq<char>) -> bool {
        exists|session: Seq<char>| #[trigger]
            self.sessions.dom().contains(session) && self.sessions[session].primary == Some(
                profile_id,
            )
    }

    pub open spec fn lease_count(self, profile_id: Seq<char>) -> nat {
        count_where(
            ordered(self.sessions.dom()),
            |session: Seq<char>| self.sessions[session].primary == Some(profile_id),
        )
    }

    pub open spec fn stopping(self, profile_id: Seq<char>, now: i64) -> Self {
        if self.backends.dom().contains(profile_id) {
            self.with_backend(
                profile_id,
                BackendView {
                    retiring: true,
                    lifecycle: BackendLifecycle::Stopping,
                    ..self.backends[profile_id]
                },
            ).noticed(
                now,
                RuntimeNoticeLevel::Info,
                "Draining Model Profile "@ + profile_id + " before unload"@,
            )
        } else {
            self
        }
    }

    pub open spec fn stopped(self, profile_id: Seq<char>, now: i64) -> Self {
        ManagerView {
            backends: self.backends.remove(profile_id),
            sessions: self.sessions_without(profile_id),
            ..self
        }.noticed(
            now,
            RuntimeNoticeLevel::Info,
            "Model Profile "@ + profile_id + " unloaded"@,
        )
    }

    pub open spec fn not_stopped(self, profile_id: Seq<char>, error: Seq<char>, now: i64) -> Self {
        let marked = if self.backends.dom().contains(profile_id) {
            self.with_backend(
                profile_id,
                BackendView {
                    lifecycle: BackendLifecycle::Failed,
                    failure: Some(error),
                    ..self.backends[profile_id]
                },
            )
        } else {
            self
        };
        marked.noticed(
            now,
            RuntimeNoticeLevel::Error,
            "Backend "@ + profile_id + " termination failed: "@ + error,
        )
    }

    pub open spec fn cancelling(self, profile_id: Seq<char>, now: i64) -> Self {
        self.with_backend(
            profile_id,
            BackendView {
                lifecycle: BackendLifecycle::Stopping,
                cancel_loading: true,
                load_progress: None,
                ..self.backends[profile_id]
            },
        ).noticed(
            now,
            RuntimeNoticeLevel::Info,
            "Cancelling Model Profile "@ + profile_id + " load"@,
        )
    }

    /// Whether the end of a process is the end of the backend that runs under a generation.
    pub open spec fn ends_backend(
        self,
        profile_id: Seq<char>,
        generation: u64,
        supervisor_id: Seq<char>,
    ) -> bool {
        &&& self.backends.dom().contains(profile_id)
        &&& self.backends[profile_id].generation == generation
        &&& self.backends[profile_id].lifecycle == BackendLifecycle::Running
        &&& self.backends[profile_id].running is Some
        &&& self.backends[profile_id].running->0.process.supervisor_id == supervisor_id
    }

    pub open spec fn crashed(self, profile_id: Seq<char>, exit: ExitView, now: i64) -> Self {
        self.with_backend(
            profile_id,
            BackendView {
                lifecycle: BackendLifecycle::Failed,
                failure: Some(exit_text(exit)),
                running: None,
                runtime_id: None,
                load_progress: None,
                ..self.backends[profile_id]
            },
        ).noticed(
            now,
            RuntimeNoticeLevel::Error,
            "Model Profile "@ + profile_id + " exited unexpectedly: "@ + exit_text(exit),
        )
    }
}

/// What a backend shows of itself.
pub struct BackendStatus {
    pub generation: u64,
    pub lifecycle: BackendLifecycle,
    pub model_profile_id: String,
    pub model_id: String,
    pub role: ModelRole,
    pub residency: BackendResidency,
    pub engine_id: Option<String>,
    pub runtime_id: Option<String>,
    pub runtime_version: Option<String>,
    pub runtime_variant: Option<String>,
    pub runtime_executable_sha256: Option<String>,
    pub process_id: Option<u32>,
    pub private_endpoint: Option<String>,
    pub load_progress: Option<BackendLoadProgress>,
    pub failure: Option<String>,
    pub provenance: Option<RuntimeProvenance>,
    pub active_request_count: usize,
    pub primary_lease_count: usize,
    pub last_used_unix: i64,
    pub retiring: bool,
}

#[verifier::ext_equal]
pub struct BackendStatusView {
    pub generation: u64,
    pub lifecycle: BackendLifecycle,
    pub model_profile_id: Seq<char>,
    pub model_id: Seq<char>,
    pub role: ModelRole,
    pub residency: BackendResidency,
    pub engine_id: Option<Seq<char>>,
    pub runtime_id: Option<Seq<char>>,
    pub runtime_version: Option<Seq<char>>,
    pub runtime_variant: Option<Seq<char>>,
    pub runtime_executable_sha256: Option<Seq<char>>,
    pub process_id: Option<u32>,
    pub private_endpoint: Option<Seq<char>>,
    pub load_progress: Option<ProgressView>,
    pub failure: Option<Seq<char>>,
    pub provenance: Option<ProvenanceView>,
    pub active_request_count: usize,
    pub primary_lease_count: nat,
    pub last_used_unix: i64,
    pub retiring: bool,
}

impl View for BackendStatus {
    type V = BackendStatusView;

    open spec fn view(&self) -> BackendStatusView {
        BackendStatusView {
            generation: self.generation,
            lifecycle: self.lifecycle,
            model_profile_id: self.model_profile_id@,
            model_id: self.model_id@,
            role: self.role,
            residency: self.residency,
            engine_id: optional(self.engine_id),
            runtime_id: optional(self.runtime_id),
            runtime_version: optional(self.runtime_version),
            runtime_variant: optional(self.runtime_variant),
            runtime_executable_sha256: optional(self.runtime_executable_sha256),
            process_id: self.process_id,
            private_endpoint: optional(self.private_endpoint),
            load_progress: optional(self.load_progress),
            failure: optional(self.failure),
            provenance: optional(self.provenance),
            active_request_count: self.active_request_count,
            primary_lease_count: self.primary_lease_count as nat,
            last_used_unix: self.last_used_unix,
            retiring: self.retiring,
        }
    }
}

impl ManagerView {
    pub open spec fn backend_status(self, id: Seq<char>) -> BackendStatusView {
        let backend = self.backends[id];
        BackendStatusView {
            generation: backend.generation,
            lifecycle: backend.lifecycle,
            model_profile_id: backend.model_profile_id,
            model_id: backend.model_id,
            role: backend.profile_role,
            residency: backend.residency,
            engine_id: backend.engine_id,
            runtime_id: backend.runtime_id,
            runtime_version: match backend.provenance {
                Some(provenance) => Some(provenance.runtime_version),
                None => None,
            },
            runtime_variant: match backend.provenance {
                Some(provenance) => Some(provenance.runtime_variant),
                None => None,
            },
            runtime_executable_sha256: match backend.provenance {
                Some(provenance) => Some(provenance.runtime_executable_sha256),
                None => None,
            },
            process_id: match (backend.running, backend.loading_process) {
                (Some(running), _) => Some(running.process.process_id),
                (None, Some(process)) => Some(process.process_id),
                (None, None) => None,
            },
            private_endpoint: match (backend.running, backend.provenance) {
                (Some(running), _) => Some(running.endpoint),
                (None, Some(provenance)) => Some(provenance.private_backend_endpoint),
                (None, None) => None,
            },
            load_progress: backend.load_progress,
            failure: backend.failure,
            provenance: backend.provenance,
            active_request_count: backend.active_requests,
            primary_lease_count: self.lease_count(backend.model_profile_id),
            last_used_unix: backend.last_used_unix,
            retiring: backend.retiring,
        }
    }

    /// Everything that the manager shows of itself.
    pub open spec fn status(self) -> ControlView {
        let ids = ordered(self.backends.dom());
        let engine_ids = ordered(self.engines.dom());
        ControlView {
            public_endpoint: self.public_endpoint,
            available_engine_count: engine_ids.len(),
            installed_engine_count: count_where(
                engine_ids,
                |id: Seq<char>| self.engines[id].probe.installation is Installed,
            ),
            running_backend_count: count_where(
                ids,
                |id: Seq<char>| self.backends[id].lifecycle == BackendLifecycle::Running,
            ),
            engines: engine_ids.map_values(|id: Seq<char>| self.engines[id]),
            backends: ids.map_values(|id: Seq<char>| self.backend_status(id)),
            recent_events: self.notices,
        }
    }
}

pub struct ControlStatus {
    pub public_endpoint: Option<String>,
    pub available_engine_count: usize,
    pub installed_engine_count: usize,
    pub running_backend_count: usize,
    pub engines: Vec<EngineStatus>,
    pub backends: Vec<BackendStatus>,
    pub recent_events: Vec<RuntimeNotice>,
}

#[verifier::ext_equal]
pub struct ControlView {
    pub public_endpoint: Option<Seq<char>>,
    pub available_engine_count: nat,
    pub installed_engine_count: nat,
    pub running_backend_count: nat,
    pub engines: Seq<EngineStatusView>,
    pub backends: Seq<BackendStatusView>,
    pub recent_events: Seq<NoticeView>,
}

impl View for ControlStatus {
    type V = ControlView;

    open spec fn view(&self) -> ControlView {
        ControlView {
            public_endpoint: optional(self.public_endpoint),
            available_engine_count: self.available_engine_count as nat,
            installed_engine_count: self.installed_engine_count as nat,
            running_backend_count: self.running_backend_count as nat,
            engines: views(self.engines@),
            backends: views(self.backends@),
            recent_events: views(self.recent_events@),
        }
    }
}

/// Whether a backend is the newest one that meets a condition: none of the others that meet it has
/// a higher generation, and none behind it has the same.
pub open spec fn newest_where(
    backends: Seq<BackendStatusView>,
    test: spec_fn(BackendStatusView) -> bool,
    at: int,
) -> bool {
    &&& 0 <= at < backends.len()
    &&& test(backends[at])
    &&& forall|k: int|
        0 <= k < backends.len() && test(#[trigger] backends[k]) ==> backends[k].generation
            <= backends[at].generation && (k > at ==> backends[k].generation
            < backends[at].generation)
}

impl ControlStatus {
    /// The backend of a Model Profile.
    pub fn backend(&self, profile_id: &str) -> (result: Option<&BackendStatus>)
        ensures
            match result {
                Some(backend) => exists|i: int|
                    0 <= i < self.backends.len() && backend == #[trigger] &self.backends@[i]
                        && backend.model_profile_id@ == profile_id@ && forall|k: int|
                        0 <= k < i ==> (#[trigger] self.backends@[k]).model_profile_id@
                            != profile_id@,
                None => forall|k: int|
                    0 <= k < self.backends.len() ==> (#[trigger] self.backends@[k]).model_profile_id@
                        != profile_id@,
            },
    {
        let mut i: usize = 0;
        while i < self.backends.len()
            invariant
                i <= self.backends.len(),
                forall|k: int|
                    0 <= k < i ==> (#[trigger] self.backends@[k]).model_profile_id@ != profile_id@,
            decreases self.backends.len() - i,
        {
            if same(self.backends[i].model_profile_id.as_str(), profile_id) {
                return Some(&self.backends[i]);
            }
            i += 1;
        }
        None
    }

    fn newest(&self, loading_only: bool) -> (result: Option<usize>)
        ensures
            match result {
                Some(at) => newest_where(
                    self@.backends,
                    |backend: BackendStatusView|
                        !loading_only || backend.lifecycle == BackendLifecycle::Loading,
                    at as int,
                ),
                None => forall|k: int|
                    0 <= k < self.backends.len() ==> loading_only && (#[trigger] self@.backends[k]).lifecycle
                        != BackendLifecycle::Loading,
            },
    {
        let mut best: Option<usize> = None;
        let mut i: usize = 0;
        let ghost list = self@.backends;
        let ghost test = |backend: BackendStatusView|
            !loading_only || backend.lifecycle == BackendLifecycle::Loading;
        while i < self.backends.len()
            invariant
                i <= self.backends.len(),
                list == self@.backends,
                list.len() == self.backends.len(),
                test == (|backend: BackendStatusView|
                    !loading_only || backend.lifecycle == BackendLifecycle::Loading),
                match best {
                    Some(at) => at < i && test(list[at as int]) && forall|k: int|
                        0 <= k < i && test(#[trigger] list[k]) ==> list[k].generation
                            <= list[at as int].generation && (k > at ==> list[k].generation
                            < list[at as int].generation),
                    None => forall|k: int| 0 <= k < i ==> !test(#[trigger] list[k]),
                },
            decreases self.backends.len() - i,
        {
            let backend = &self.backends[i];
            proof {
                assert(list[i as int] == backend@);
            }
            if !loading_only || backend.lifecycle.is_loading() {
                match best {
                    Some(at) => {
                        proof {
                            assert(list[at as int] == self.backends@[at as int]@);
                        }
                        if backend.generation >= self.backends[at].generation {
                            best = Some(i);
                        }
                    },
                    None => {
                        best = Some(i);
                    },
                }
            }
            i += 1;
        }
        best
    }

    /// The backend with the highest generation; of several, the last.
    pub fn newest_backend(&self) -> (result: Option<&BackendStatus>)
        ensures
            match result {
                Some(backend) => exists|at: int|
                    newest_where(self@.backends, |backend: BackendStatusView| true, at) && backend
                        == #[trigger] &self.backends@[at],
                None => self.backends.len() == 0,
            },
    {
        match self.newest(false) {
            Some(at) => {
                proof {
                    assert(newest_where(
                        self@.backends,
                        |backend: BackendStatusView| true,
                        at as int,
                    ));
                }
                Some(&self.backends[at])
            },
            None => {
                proof {
                    if self.backends.len() > 0 {
                        assert(self@.backends[0] == self.backends@[0]@);
                    }
                }
                None
            },
        }
    }

    /// The loading backend with the highest generation; of several, the last.
    pub fn loading_backend(&self) -> (result: Option<&BackendStatus>)
        ensures
            match result {
                Some(backend) => exists|at: int|
                    newest_where(
                        self@.backends,
                        |backend: BackendStatusView| backend.lifecycle == BackendLifecycle::Loading,
                        at,
                    ) && backend == #[trigger] &self.backends@[at],
                None => forall|k: int|
                    0 <= k < self.backends.len() ==> (#[trigger] self.backends@[k]).lifecycle
                        != BackendLifecycle::Loading,
            },
    {
        match self.newest(true) {
            Some(at) => {
                proof {
                    assert(newest_where(
                        self@.backends,
                        |backend: BackendStatusView| backend.lifecycle == BackendLifecycle::Loading,
                        at as int,
                    ));
                }
                Some(&self.backends[at])
            },
            None => {
                proof {
                    assert forall|k: int| 0 <= k < self.backends.len() implies (
                    #[trigger] self.backends@[k]).lifecycle != BackendLifecycle::Loading by {
                        assert(self@.backends[k] == self.backends@[k]@);
                    }
                }
                None
            },
        }
    }
}


/// A Model Profile as far as loading it goes.
#[derive(Debug)]
pub struct ModelProfile {
    pub id: String,
    pub display_name: String,
    pub model_id: String,
    pub engine_id: String,
    pub role: ModelRole,
    /// The digest of all that the profile says.
    pub content_sha256: String,
}

#[verifier::ext_equal]
pub struct ProfileView {
    pub id: Seq<char>,
    pub display_name: Seq<char>,
    pub model_id: Seq<char>,
    pub engine_id: Seq<char>,
    pub role: ModelRole,
    pub content_sha256: Seq<char>,
}

impl View for ModelProfile {
    type V = ProfileView;

    open spec fn view(&self) -> ProfileView {
        ProfileView {
            id: self.id@,
            display_name: self.display_name@,
            model_id: self.model_id@,
            engine_id: self.engine_id@,
            role: self.role,
            content_sha256: self.content_sha256@,
        }
    }
}

impl Duplicate for ModelProfile {
    fn duplicate(&self) -> (result: ModelProfile) {
        ModelProfile {
            id: self.id.clone(),
            display_name: self.display_name.clone(),
            model_id: self.model_id.clone(),
            engine_id: self.engine_id.clone(),
            role: self.role,
            content_sha256: self.content_sha256.clone(),
        }
    }
}

/// What reading the Model Profiles gave: the one that was asked for, none, or an error.
pub type ProfileLookup = Result<Option<ModelProfile>, String>;

pub open spec fn lookup_view(lookup: ProfileLookup) -> Result<Option<ProfileView>, Seq<char>> {
    match lookup {
        Ok(profile) => Ok(optional(profile)),
        Err(error) => Err(error@),
    }
}

/// What an admitted load does next.
pub enum Admission {
    /// The backend that runs serves: it is pinned.
    Reused(ControlStatus),
    /// What is there is stopped first; then the load is reserved.
    StopFirst,
    /// The load can be reserved.
    Reserve,
}

/// The decision on a load.
#[derive(PartialEq, Eq, Structural)]
pub enum AdmissionKind {
    Reused,
    StopFirst,
    Reserve,
}

impl ManagerView {
    /// Whether the running backend of a Model Profile is what a load asks for.
    pub open spec fn reusable(
        backend: BackendView,
        profile_hash: Seq<char>,
        runtime_id: Option<Seq<char>>,
        settings_empty: bool,
    ) -> bool {
        settings_empty && (runtime_id is None || backend.runtime_id == runtime_id)
            && backend.launched_from(profile_hash)
    }

    pub open spec fn admission(
        self,
        operation_free: bool,
        profile_id: Seq<char>,
        lookup: Result<Option<ProfileView>, Seq<char>>,
        model_found: bool,
        runtime_id: Option<Seq<char>>,
        settings_empty: bool,
    ) -> Result<AdmissionKind, ErrorView> {
        if self.shutting_down {
            Err(ErrorView::ShuttingDown)
        } else if !operation_free {
            Err(ErrorView::Busy(self.current()))
        } else {
            match lookup {
                Err(error) => Err(ErrorView::Operation(error)),
                Ok(None) => Err(ErrorView::ModelProfileNotFound(profile_id)),
                Ok(Some(profile)) => if !model_found {
                    Err(ErrorView::BoundModelMissing { profile_id, model_id: profile.model_id })
                } else if !self.backends.dom().contains(profile_id) {
                    Ok(AdmissionKind::Reserve)
                } else {
                    let backend = self.backends[profile_id];
                    match backend.lifecycle {
                        BackendLifecycle::Running => if Self::reusable(
                            backend,
                            profile.content_sha256,
                            runtime_id,
                            settings_empty,
                        ) {
                            Ok(AdmissionKind::Reused)
                        } else {
                            Ok(AdmissionKind::StopFirst)
                        },
                        BackendLifecycle::Failed => Ok(AdmissionKind::StopFirst),
                        lifecycle => Err(ErrorView::Busy(lifecycle)),
                    }
                },
            }
        }
    }

    pub open spec fn pinned(self, profile_id: Seq<char>) -> Self {
        self.with_backend(
            profile_id,
            BackendView { residency: BackendResidency::Pinned, ..self.backends[profile_id] },
        )
    }
}

impl RuntimeManager {
    pub fn new(options: RuntimeManagerOptions) -> (result: RuntimeManager)
        ensures
            result@.wf(),
            result@.generations_ordered(),
            result@ == (ManagerView {
                options,
                public_endpoint: None,
                engines: Map::empty(),
                backends: Map::empty(),
                sessions: Map::empty(),
                next_generation: 0,
                notices: Seq::empty(),
                cancellation_epoch: 0,
                shutting_down: false,
            }),
    {
        let result = RuntimeManager {
            options,
            public_endpoint: None,
            engines: Table::new(),
            backends: Table::new(),
            sessions: Table::new(),
            next_generation: 0,
            notices: Vec::new(),
            cancellation_epoch: 0,
            shutting_down: false,
        };
        proof {
            assert(views(result.notices@) =~= Seq::empty());
        }
        result
    }

    pub fn set_public_endpoint(&mut self, endpoint: String)
        ensures
            final(self)@ == (ManagerView { public_endpoint: Some(endpoint@), ..old(self)@ }),
            old(self)@.begins_nothing(final(self)@),
    {
        self.public_endpoint = Some(endpoint);
    }

    /// Takes in what probing an engine gave.
    pub fn record_engine_probe(
        &mut self,
        identity: EngineIdentity,
        probe: Result<EngineProbe, String>,
    )
        ensures
            final(self)@ == (ManagerView {
                engines: old(self)@.engines.insert(
                    identity.id@,
                    EngineStatusView {
                        identity: identity@,
                        probe: probe_outcome(
                            match probe {
                                Ok(probe) => Ok(probe@),
                                Err(error) => Err(error@),
                            },
                        ),
                    },
                ),
                ..old(self)@
            }),
            old(self)@.begins_nothing(final(self)@),
    {
        let probe = accept_probe(probe);
        self.engines.insert(identity.id.clone(), EngineStatus { identity, probe });
    }

    fn push_notice(&mut self, now: i64, level: RuntimeNoticeLevel, message: String)
        ensures
            final(self)@ == old(self)@.noticed(now, level, message@),
    {
        let ghost before = self.notices@;
        if self.notices.len() == NOTICE_LIMIT {
            let _ = self.notices.remove(0);
            proof {
                assert(views(self.notices@) =~= views(before).skip(1));
            }
        }
        let notice = RuntimeNotice { timestamp_unix: now, level, message };
        proof {
            lemma_views_push(self.notices@, notice);
        }
        self.notices.push(notice);
    }

    pub fn load_cancelled(&self, cancellation_epoch: u64) -> (result: bool)
        ensures
            result == self@.cancelled(cancellation_epoch),
    {
        self.shutting_down || self.cancellation_epoch != cancellation_epoch
    }

    /// The epoch that a load admitted now belongs to.
    pub fn epoch(&self) -> (result: u64)
        ensures
            result == self@.cancellation_epoch,
    {
        self.cancellation_epoch
    }

    pub fn options(&self) -> (result: &RuntimeManagerOptions)
        ensures
            *result == self@.options,
    {
        &self.options
    }

    /// The lifecycle that a busy manager reports.
    pub fn current_lifecycle(&self) -> (result: BackendLifecycle)
        ensures
            result == self@.current(),
    {
        let mut i: usize = 0;
        let count: usize = self.backends.len();
        let ghost keys = self.backends.keys();
        let ghost map = self.backends@;
        let ghost test = |id: Seq<char>|
            map[id].lifecycle == BackendLifecycle::Loading || map[id].lifecycle
                == BackendLifecycle::Stopping;
        while i < count
            invariant
                i <= count,
                count == keys.len(),
                keys == self.backends.keys(),
                keys == ordered(map.dom()),
                map == self.backends@,
                test == (|id: Seq<char>|
                    map[id].lifecycle == BackendLifecycle::Loading || map[id].lifecycle
                        == BackendLifecycle::Stopping),
                forall|k: int| 0 <= k < i ==> !test(#[trigger] keys[k]),
            decreases count - i,
        {
            let lifecycle = self.backends.value_at(i).lifecycle;
            if lifecycle == BackendLifecycle::Loading || lifecycle == BackendLifecycle::Stopping {
                proof {
                    lemma_first_where(keys, test, i as int);
                }
                return lifecycle;
            }
            i += 1;
        }
        proof {
            lemma_first_where_none(keys, test);
        }
        BackendLifecycle::Stopped
    }

    /// Decides on a load that an operator asks for. `operation_free` says whether no other load or
    /// unload is under way, `model_found` whether the model of the profile is there.
    pub fn admit_load(
        &mut self,
        operation_free: bool,
        profile_id: &str,
        lookup: &ProfileLookup,
        model_found: bool,
        runtime_id: &Option<String>,
        settings_empty: bool,
    ) -> (result: Result<Admission, RuntimeError>)
        requires
            old(self)@.wf(),
        ensures
            final(self)@.wf(),
            old(self)@.begins_nothing(final(self)@),
            ({
                let decision = old(self)@.admission(
                    operation_free,
                    profile_id@,
                    lookup_view(*lookup),
                    model_found,
                    optional(*runtime_id),
                    settings_empty,
                );
                match result {
                    Ok(Admission::Reused(status)) => decision == Ok::<AdmissionKind, ErrorView>(
                        AdmissionKind::Reused,
                    ) && final(self)@ == old(self)@.pinned(profile_id@) && status@ == final(self)@.status(),
                    Ok(Admission::StopFirst) => decision == Ok::<AdmissionKind, ErrorView>(
                        AdmissionKind::StopFirst,
                    ) && final(self)@ == old(self)@,
                    Ok(Admission::Reserve) => decision == Ok::<AdmissionKind, ErrorView>(
                        AdmissionKind::Reserve,
                    ) && final(self)@ == old(self)@,
                    Err(error) => decision == Err::<AdmissionKind, ErrorView>(error@) && final(self)@ == old(self)@,
                }
            }),
    {
        if self.shutting_down {
            return Err(RuntimeError::ShuttingDown);
        }
        if !operation_free {
            return Err(RuntimeError::Busy(self.current_lifecycle()));
        }
        let profile = match lookup {
            Err(error) => {
                return Err(RuntimeError::Operation(error.clone()));
            },
            Ok(None) => {
                return Err(RuntimeError::ModelProfileNotFound(profile_id.to_owned()));
            },
            Ok(Some(profile)) => profile,
        };
        if !model_found {
            return Err(
                RuntimeError::BoundModelMissing {
                    profile_id: profile_id.to_owned(),
                    model_id: profile.model_id.clone(),
                },
            );
        }
        let ghost before = self@;
        let reusable = match self.backends.get(profile_id) {
            None => {
                return Ok(Admission::Reserve);
            },
            Some(backend) => match backend.lifecycle {
                BackendLifecycle::Running => {
                    let same_runtime: bool = match runtime_id {
                        Some(_) => same_optional(&backend.runtime_id, runtime_id),
                        None => true,
                    };
                    settings_empty && same_runtime && backend.was_launched_from(
                        profile.content_sha256.as_str(),
                    )
                },
                BackendLifecycle::Failed => false,
                lifecycle => {
                    return Err(RuntimeError::Busy(lifecycle));
                },
            },
        };
        if !reusable {
            return Ok(Admission::StopFirst);
        }
        match self.backends.remove(profile_id) {
            Some(mut backend) => {
                backend.residency = BackendResidency::Pinned;
                self.backends.insert(profile_id.to_owned(), backend);
                proof {
                    assert(self@ =~= before.pinned(profile_id@));
                }
            },
            None => {},
        }
        Ok(Admission::Reused(self.status()))
    }

    /// Reserves the next generation for a load.
    pub fn reserve_loading(
        &mut self,
        profile_id: &str,
        model_id: &str,
        profile_role: ModelRole,
        residency: BackendResidency,
        cancellation_epoch: u64,
        now: i64,
    ) -> (result: Result<u64, RuntimeError>)
        requires
            old(self)@.wf(),
        ensures
            final(self)@.wf(),
            match result {
                Ok(generation) => !old(self)@.cancelled(cancellation_epoch) && generation
                    == next_after(old(self)@.next_generation) && final(self)@ == old(self)@.reserved(
                    profile_id@,
                    model_id@,
                    profile_role,
                    residency,
                    now,
                ),
                Err(error) => old(self)@.cancelled(cancellation_epoch) && final(self)@ == old(self)@
                    && error@ == if old(self)@.shutting_down {
                    ErrorView::ShuttingDown
                } else {
                    ErrorView::Operation("model load was cancelled before admission"@)
                },
            },
    {
        if self.load_cancelled(cancellation_epoch) {
            return Err(
                if self.shutting_down {
                    RuntimeError::ShuttingDown
                } else {
                    RuntimeError::Operation("model load was cancelled before admission".to_owned())
                },
            );
        }
        let generation: u64 = if self.next_generation == u64::MAX {
            0
        } else {
            self.next_generation + 1
        };
        self.next_generation = generation;
        let backend = ManagedBackend {
            lifecycle: BackendLifecycle::Loading,
            model_profile_id: profile_id.to_owned(),
            model_id: model_id.to_owned(),
            profile_role,
            residency,
            engine_id: None,
            runtime_id: None,
            running: None,
            loading_process: None,
            loading_lease_held: false,
            cancel_loading: false,
            load_progress: Some(BackendLoadProgress::indeterminate(BackendLoadPhase::Starting)),
            failure: None,
            provenance: None,
            generation,
            active_requests: 0,
            last_used_unix: now,
            retiring: false,
        };
        self.backends.insert(profile_id.to_owned(), backend);
        let message = cat5("Loading Model Profile ", profile_id, " (artifact ", model_id, ")");
        self.push_notice(now, RuntimeNoticeLevel::Info, message);
        Ok(generation)
    }

    /// The place of the backend that has a generation.
    fn place_of_generation(&self, generation: u64) -> (result: Option<usize>)
        ensures
            match result {
                Some(i) => i < self.backends.keys().len() && self@.holder(generation) == Some(
                    self.backends.keys()[i as int],
                ) && self.backends@.dom().contains(self.backends.keys()[i as int]),
                None => self@.holder(generation) is None,
            },
    {
        let mut i: usize = 0;
        let count: usize = self.backends.len();
        let ghost keys = self.backends.keys();
        let ghost map = self.backends@;
        let ghost state = self@;
        let ghost test = |id: Seq<char>| state.backends[id].generation == generation;
        while i < count
            invariant
                i <= count,
                count == keys.len(),
                keys == self.backends.keys(),
                keys == ordered(map.dom()),
                map == self.backends@,
                state == self@,
                test == (|id: Seq<char>| state.backends[id].generation == generation),
                forall|k: int| 0 <= k < i ==> !test(#[trigger] keys[k]),
            decreases count - i,
        {
            if self.backends.value_at(i).generation == generation {
                proof {
                    lemma_first_where(keys, test, i as int);
                }
                return Some(i);
            }
            i += 1;
        }
        proof {
            lemma_first_where_none(keys, test);
        }
        None
    }

    /// Publishes the progress of a load.
    pub fn set_load_progress(&mut self, generation: u64, progress: BackendLoadProgress)
        requires
            old(self)@.wf(),
        ensures
            final(self)@.wf(),
            old(self)@.begins_nothing(final(self)@),
            final(self)@ == old(self)@.progressed(generation, progress@),
    {
        let ghost before = self@;
        if let Some(i) = self.place_of_generation(generation) {
            let id = self.backends.key_at(i).clone();
            match self.backends.remove(id.as_str()) {
                Some(mut backend) => {
                    backend.apply_load_progress(generation, progress);
                    self.backends.insert(id, backend);
                    proof {
                        assert(self@ =~= before.progressed(generation, progress@));
                    }
                },
                None => {},
            }
        }
    }

    /// Records that a load failed. `process` is what it started and could not be ended.
    pub fn fail_loading(
        &mut self,
        generation: u64,
        detail: &str,
        process: &Option<ProcessDescriptor>,
        now: i64,
    )
        requires
            old(self)@.wf(),
        ensures
            final(self)@.wf(),
            old(self)@.begins_nothing(final(self)@),
            final(self)@ == old(self)@.failed(generation, detail@, optional(*process), now),
    {
        let ghost before = self@;
        if let Some(i) = self.place_of_generation(generation) {
            let id = self.backends.key_at(i).clone();
            match self.backends.remove(id.as_str()) {
                Some(mut backend) => {
                    let ghost old_backend = backend@;
                    let phase = match &backend.load_progress {
                        Some(progress) => if !backend.cancel_loading && backend.lifecycle
                            == BackendLifecycle::Loading && !same(
                            detail,
                            "model load was cancelled",
                        ) {
                            Some(progress.phase)
                        } else {
                            None
                        },
                        None => None,
                    };
                    let recorded = match phase {
                        Some(phase) => cat4("failed while ", phase.failure_label(), ": ", detail),
                        None => detail.to_owned(),
                    };
                    backend.load_progress = None;
                    backend.lifecycle = BackendLifecycle::Failed;
                    backend.failure = Some(recorded.clone());
                    backend.running = None;
                    backend.loading_process = duplicate_option(process);
                    match process {
                        None => {
                            backend.runtime_id = None;
                            backend.loading_lease_held = false;
                        },
                        Some(process) => {
                            let recorded_launch = backend.provenance.take();
                            if let Some(mut provenance) = recorded_launch {
                                provenance.process_id = process.process_id;
                                backend.provenance = Some(provenance);
                            }
                        },
                    }
                    backend.cancel_loading = false;
                    let message = cat4(
                        "Model Profile ",
                        backend.model_profile_id.as_str(),
                        " startup failed: ",
                        recorded.as_str(),
                    );
                    proof {
                        assert(backend@ =~= ManagerView::failed_backend(
                            old_backend,
                            detail@,
                            optional(*process),
                        ));
                    }
                    self.backends.insert(id, backend);
                    self.push_notice(now, RuntimeNoticeLevel::Error, message);
                    proof {
                        assert(self@ =~= before.failed(
                            generation,
                            detail@,
                            optional(*process),
                            now,
                        ));
                    }
                },
                None => {},
            }
        }
    }
}


/// What stopping a backend begins with.
pub struct StopPlan {
    /// The process to end.
    pub process: Option<ProcessDescriptor>,
    /// The engine whose launch state is to be cleared.
    pub engine_id: Option<String>,
}

impl RuntimeManager {
    fn count_leases(&self, profile_id: &str) -> (result: usize)
        ensures
            result == self@.lease_count(profile_id@),
            result <= self.sessions.keys().len(),
    {
        let mut total: usize = 0;
        let mut i: usize = 0;
        let count: usize = self.sessions.len();
        let ghost keys = self.sessions.keys();
        let ghost map = self.sessions@;
        let ghost test = |session: Seq<char>| map[session].primary == Some(profile_id@);
        let wanted = Some(profile_id.to_owned());
        while i < count
            invariant
                i <= count,
                total <= i,
                count == keys.len(),
                keys == self.sessions.keys(),
                map == self.sessions@,
                optional(wanted) == Some(profile_id@),
                test == (|session: Seq<char>| map[session].primary == Some(profile_id@)),
                total == count_where(keys.take(i as int), test),
            decreases count - i,
        {
            proof {
                assert(keys.take(i + 1).drop_last() =~= keys.take(i as int));
                assert(keys.take(i + 1).last() == keys[i as int]);
            }
            if same_optional(&self.sessions.value_at(i).primary, &wanted) {
                total += 1;
            }
            i += 1;
        }
        proof {
            assert(keys.take(i as int) =~= keys);
        }
        total
    }

    fn backend_status_at(&self, i: usize) -> (result: BackendStatus)
        requires
            i < self.backends.keys().len(),
        ensures
            result@ == self@.backend_status(self.backends.keys()[i as int]),
    {
        let backend = self.backends.value_at(i);
        let process_id = match (&backend.running, &backend.loading_process) {
            (Some(running), _) => Some(running.process.process_id),
            (None, Some(process)) => Some(process.process_id),
            (None, None) => None,
        };
        let private_endpoint = match (&backend.running, &backend.provenance) {
            (Some(running), _) => Some(running.endpoint.clone()),
            (None, Some(provenance)) => Some(provenance.private_backend_endpoint.clone()),
            (None, None) => None,
        };
        let (runtime_version, runtime_variant, runtime_executable_sha256) =
            match &backend.provenance {
            Some(provenance) => (
                Some(provenance.runtime_version.clone()),
                Some(provenance.runtime_variant.clone()),
                Some(provenance.runtime_executable_sha256.clone()),
            ),
            None => (None, None, None),
        };
        BackendStatus {
            generation: backend.generation,
            lifecycle: backend.lifecycle,
            model_profile_id: backend.model_profile_id.clone(),
            model_id: backend.model_id.clone(),
            role: backend.profile_role,
            residency: backend.residency,
            engine_id: duplicate_option(&backend.engine_id),
            runtime_id: duplicate_option(&backend.runtime_id),
            runtime_version,
            runtime_variant,
            runtime_executable_sha256,
            process_id,
            private_endpoint,
            load_progress: duplicate_option(&backend.load_progress),
            failure: duplicate_option(&backend.failure),
            provenance: duplicate_option(&backend.provenance),
            active_request_count: backend.active_requests,
            primary_lease_count: self.count_leases(backend.model_profile_id.as_str()),
            last_used_unix: backend.last_used_unix,
            retiring: backend.retiring,
        }
    }

    fn engine_statuses(&self) -> (result: (Vec<EngineStatus>, usize))
        ensures
            views(result.0@) == self@.status().engines,
            result.1 == self@.status().installed_engine_count,
    {
        let mut engines: Vec<EngineStatus> = Vec::new();
        let mut installed: usize = 0;
        let mut i: usize = 0;
        let count: usize = self.engines.len();
        let ghost keys = self.engines.keys();
        let ghost map = self.engines@;
        let ghost state = self@;
        let ghost all = state.status().engines;
        let ghost test = |id: Seq<char>| state.engines[id].probe.installation is Installed;
        proof {
            assert(views(engines@) =~= all.take(0));
        }
        while i < count
            invariant
                i <= count,
                installed <= i,
                count == keys.len(),
                keys == self.engines.keys(),
                keys == ordered(map.dom()),
                map == self.engines@,
                state == self@,
                all == state.status().engines,
                all.len() == count,
                test == (|id: Seq<char>| state.engines[id].probe.installation is Installed),
                views(engines@) == all.take(i as int),
                installed == count_where(keys.take(i as int), test),
            decreases count - i,
        {
            proof {
                assert(keys.take(i + 1).drop_last() =~= keys.take(i as int));
                assert(keys.take(i + 1).last() == keys[i as int]);
                assert(all.take(i + 1) =~= all.take(i as int).push(all[i as int]));
            }
            let status = self.engines.value_at(i);
            match status.probe.installation {
                InstallationState::Installed { .. } => {
                    installed += 1;
                },
                _ => {},
            }
            let copy = status.duplicate();
            proof {
                lemma_views_push(engines@, copy);
            }
            engines.push(copy);
            i += 1;
        }
        proof {
            assert(keys.take(i as int) =~= keys);
            assert(all.take(i as int) =~= all);
        }
        (engines, installed)
    }

    /// What the manager shows of itself.
    pub fn status(&self) -> (result: ControlStatus)
        ensures
            result@ == self@.status(),
    {
        let (engines, installed_engine_count) = self.engine_statuses();
        let available_engine_count: usize = self.engines.len();
        let mut backends: Vec<BackendStatus> = Vec::new();
        let mut running: usize = 0;
        let mut i: usize = 0;
        let count: usize = self.backends.len();
        let ghost keys = self.backends.keys();
        let ghost map = self.backends@;
        let ghost state = self@;
        let ghost all = state.status().backends;
        let ghost test = |id: Seq<char>| state.backends[id].lifecycle == BackendLifecycle::Running;
        proof {
            assert(views(backends@) =~= all.take(0));
        }
        while i < count
            invariant
                i <= count,
                running <= i,
                count == keys.len(),
                keys == self.backends.keys(),
                keys == ordered(map.dom()),
                map == self.backends@,
                state == self@,
                all == state.status().backends,
                all.len() == count,
                test == (|id: Seq<char>|
                    state.backends[id].lifecycle == BackendLifecycle::Running),
                views(backends@) == all.take(i as int),
                running == count_where(keys.take(i as int), test),
            decreases count - i,
        {
            proof {
                assert(keys.take(i + 1).drop_last() =~= keys.take(i as int));
                assert(keys.take(i + 1).last() == keys[i as int]);
                assert(all.take(i + 1) =~= all.take(i as int).push(all[i as int]));
            }
            if self.backends.value_at(i).lifecycle == BackendLifecycle::Running {
                running += 1;
            }
            let status = self.backend_status_at(i);
            proof {
                lemma_views_push(backends@, status);
            }
            backends.push(status);
            i += 1;
        }
        proof {
            assert(keys.take(i as int) =~= keys);
            assert(all.take(i as int) =~= all);
        }
        let result = ControlStatus {
            public_endpoint: duplicate_option(&self.public_endpoint),
            available_engine_count,
            installed_engine_count,
            running_backend_count: running,
            engines,
            backends,
            recent_events: duplicate_list(&self.notices),
        };
        proof {
            assert(result@.engines =~= state.status().engines);
            assert(result@ =~= state.status());
        }
        result
    }

    /// Calls off the load of a Model Profile. Returns the process to end and the engine to tell, if
    /// a load is under way.
    pub fn cancel_loading(&mut self, profile_id: &str, now: i64) -> (result: Option<StopPlan>)
        requires
            old(self)@.wf(),
        ensures
            final(self)@.wf(),
            old(self)@.begins_nothing(final(self)@),
            match result {
                Some(plan) => old(self)@.backends.dom().contains(profile_id@) && old(
                    self)@.backends[profile_id@].lifecycle == BackendLifecycle::Loading && final(
                    self)@ == old(self)@.cancelling(profile_id@, now) && optional(plan.process)
                    == old(self)@.backends[profile_id@].loading_process && optional(plan.engine_id)
                    == old(self)@.backends[profile_id@].engine_id,
                None => !(old(self)@.backends.dom().contains(profile_id@) && old(
                    self)@.backends[profile_id@].lifecycle == BackendLifecycle::Loading) && final(
                    self)@ == old(self)@,
            },
    {
        let ghost before = self@;
        match self.backends.get(profile_id) {
            None => {
                return None;
            },
            Some(backend) => if backend.lifecycle != BackendLifecycle::Loading {
                return None;
            },
        }
        match self.backends.remove(profile_id) {
            Some(mut backend) => {
                backend.lifecycle = BackendLifecycle::Stopping;
                backend.cancel_loading = true;
                backend.load_progress = None;
                let plan = StopPlan {
                    process: duplicate_option(&backend.loading_process),
                    engine_id: duplicate_option(&backend.engine_id),
                };
                self.backends.insert(profile_id.to_owned(), backend);
                let message = cat3("Cancelling Model Profile ", profile_id, " load");
                self.push_notice(now, RuntimeNoticeLevel::Info, message);
                proof {
                    assert(self@ =~= before.cancelling(profile_id@, now));
                }
                Some(plan)
            },
            None => None,
        }
    }

    /// Begins to stop a backend: it takes no more requests. Returns what is to be ended once the
    /// requests that it serves are done, or nothing if there is no such backend.
    pub fn begin_stop(&mut self, profile_id: &str, now: i64) -> (result: Option<StopPlan>)
        requires
            old(self)@.wf(),
        ensures
            final(self)@.wf(),
            old(self)@.begins_no_load(final(self)@),
            final(self)@ == old(self)@.stopping(profile_id@, now),
            match result {
                Some(plan) => old(self)@.backends.dom().contains(profile_id@) && optional(
                    plan.process,
                ) == (match old(self)@.backends[profile_id@].running {
                    Some(running) => Some(running.process),
                    None => old(self)@.backends[profile_id@].loading_process,
                }) && optional(plan.engine_id) == old(self)@.backends[profile_id@].engine_id,
                None => !old(self)@.backends.dom().contains(profile_id@),
            },
    {
        let ghost before = self@;
        match self.backends.remove(profile_id) {
            Some(mut backend) => {
                backend.retiring = true;
                backend.lifecycle = BackendLifecycle::Stopping;
                let process = match &backend.running {
                    Some(running) => Some(running.process.duplicate()),
                    None => duplicate_option(&backend.loading_process),
                };
                let plan = StopPlan { process, engine_id: duplicate_option(&backend.engine_id) };
                self.backends.insert(profile_id.to_owned(), backend);
                let message = cat3("Draining Model Profile ", profile_id, " before unload");
                self.push_notice(now, RuntimeNoticeLevel::Info, message);
                proof {
                    assert(self@ =~= before.stopping(profile_id@, now));
                }
                Some(plan)
            },
            None => {
                proof {
                    assert(self@ =~= before);
                }
                None
            },
        }
    }

    /// Whether a backend that is being stopped serves no request any more.
    pub fn is_drained(&self, profile_id: &str) -> (result: bool)
        ensures
            result == (!self@.backends.dom().contains(profile_id@)
                || self@.backends[profile_id@].active_requests == 0),
    {
        match self.backends.get(profile_id) {
            Some(backend) => backend.active_requests == 0,
            None => true,
        }
    }

    /// Takes a Model Profile out of every session that it is the primary of.
    fn forget_primary(&mut self, profile_id: &str)
        ensures
            final(self)@ == (ManagerView {
                sessions: old(self)@.sessions_without(profile_id@),
                ..old(self)@
            }),
    {
        let ghost before = self@;
        let wanted = Some(profile_id.to_owned());
        let mut next: Table<SessionState> = Table::new();
        let mut i: usize = 0;
        let count: usize = self.sessions.len();
        let ghost keys = self.sessions.keys();
        let ghost map = self.sessions@;
        let ghost all = before.sessions_without(profile_id@);
        proof {
            assert(next@ =~= all.restrict(keys.take(0).to_set()));
        }
        while i < count
            invariant
                i <= count,
                count == keys.len(),
                keys == self.sessions.keys(),
                keys.to_set() == map.dom(),
                map == self.sessions@,
                self@ == before,
                all == before.sessions_without(profile_id@),
                map == before.sessions,
                optional(wanted) == Some(profile_id@),
                next@ == all.restrict(keys.take(i as int).to_set()),
            decreases count - i,
        {
            let id = self.sessions.key_at(i).clone();
            let session = self.sessions.value_at(i);
            let primary = if same_optional(&session.primary, &wanted) {
                None
            } else {
                duplicate_option(&session.primary)
            };
            let state = SessionState { primary, last_used_unix: session.last_used_unix };
            proof {
                crate::table::lemma_take_grows(keys, i as int);
                assert(state@ =~= all[keys[i as int]]);
            }
            next.insert(id, state);
            proof {
                assert(next@ =~= all.restrict(keys.take(i + 1).to_set()));
            }
            i += 1;
        }
        proof {
            assert(keys.take(i as int) =~= keys);
            assert(next@ =~= all);
        }
        self.sessions = next;
    }

    /// Ends the stop of a backend, given whether its process could be ended.
    pub fn finish_stop(&mut self, profile_id: &str, termination: Result<(), String>, now: i64) -> (result:
        Result<ControlStatus, RuntimeError>)
        requires
            old(self)@.wf(),
        ensures
            final(self)@.wf(),
            old(self)@.begins_nothing(final(self)@),
            match termination {
                Ok(()) => final(self)@ == old(self)@.stopped(profile_id@, now) && (result matches Ok(
                    status,
                ) && status@ == final(self)@.status()),
                Err(error) => final(self)@ == old(self)@.not_stopped(profile_id@, error@, now) && (
                result matches Err(reported) && reported@ == ErrorView::Operation(error@)),
            },
    {
        let ghost before = self@;
        match termination {
            Err(error) => {
                match self.backends.remove(profile_id) {
                    Some(mut backend) => {
                        backend.lifecycle = BackendLifecycle::Failed;
                        backend.failure = Some(error.clone());
                        self.backends.insert(profile_id.to_owned(), backend);
                    },
                    None => {
                        proof {
                            assert(self@ =~= before);
                        }
                    },
                }
                let message = cat4(
                    "Backend ",
                    profile_id,
                    " termination failed: ",
                    error.as_str(),
                );
                self.push_notice(now, RuntimeNoticeLevel::Error, message);
                proof {
                    assert(self@ =~= before.not_stopped(profile_id@, error@, now));
                }
                Err(RuntimeError::Operation(error))
            },
            Ok(()) => {
                let _ = self.backends.remove(profile_id);
                self.forget_primary(profile_id);
                let message = cat3("Model Profile ", profile_id, " unloaded");
                self.push_notice(now, RuntimeNoticeLevel::Info, message);
                proof {
                    assert(self@ =~= before.stopped(profile_id@, now));
                }
                Ok(self.status())
            },
        }
    }

    /// Begins to shut down: nothing is admitted any more and every load is called off. Returns the
    /// Model Profiles whose backends are to be stopped.
    pub fn begin_shutdown(&mut self) -> (result: Vec<String>)
        requires
            old(self)@.wf(),
        ensures
            final(self)@.wf(),
            old(self)@.begins_nothing(final(self)@),
            final(self)@ == (ManagerView {
                shutting_down: true,
                cancellation_epoch: next_after(old(self)@.cancellation_epoch),
                ..old(self)@
            }),
            views(result@) == ordered(old(self)@.backends.dom()),
    {
        self.shutting_down = true;
        self.cancellation_epoch =
        if self.cancellation_epoch == u64::MAX {
            0
        } else {
            self.cancellation_epoch + 1
        };
        let mut result: Vec<String> = Vec::new();
        let mut i: usize = 0;
        let count: usize = self.backends.len();
        let ghost keys = self.backends.keys();
        proof {
            assert(views(result@) =~= keys.take(0));
        }
        while i < count
            invariant
                i <= count,
                count == keys.len(),
                keys == self.backends.keys(),
                views(result@) == keys.take(i as int),
            decreases count - i,
        {
            let id = self.backends.key_at(i).clone();
            proof {
                lemma_views_push(result@, id);
                assert(keys.take(i + 1) =~= keys.take(i as int).push(keys[i as int]));
            }
            result.push(id);
            i += 1;
        }
        proof {
            assert(keys.take(i as int) =~= keys);
        }
        result
    }

    /// Takes in that a process ended which nobody ended. Returns the engine whose launch state is to
    /// be cleared, if it was the process of a backend that runs.
    pub fn handle_unexpected_exit(
        &mut self,
        profile_id: &str,
        generation: u64,
        process: &ProcessDescriptor,
        exit: &ProcessExit,
        now: i64,
    ) -> (result: Option<Option<String>>)
        requires
            old(self)@.wf(),
        ensures
            final(self)@.wf(),
            old(self)@.begins_nothing(final(self)@),
            match result {
                Some(engine_id) => old(self)@.ends_backend(
                    profile_id@,
                    generation,
                    process.supervisor_id@,
                ) && final(self)@ == old(self)@.crashed(profile_id@, exit@, now) && optional(
                    engine_id,
                ) == old(self)@.backends[profile_id@].engine_id,
                None => !old(self)@.ends_backend(profile_id@, generation, process.supervisor_id@)
                    && final(self)@ == old(self)@,
            },
    {
        let ghost before = self@;
        let ours: bool = match self.backends.get(profile_id) {
            None => false,
            Some(backend) => backend.generation == generation && backend.lifecycle
                == BackendLifecycle::Running && match &backend.running {
                Some(running) => same(
                    running.process.supervisor_id.as_str(),
                    process.supervisor_id.as_str(),
                ),
                None => false,
            },
        };
        if !ours {
            return None;
        }
        match self.backends.remove(profile_id) {
            Some(mut backend) => {
                let detail = exit_detail(exit);
                let engine_id = duplicate_option(&backend.engine_id);
                backend.lifecycle = BackendLifecycle::Failed;
                backend.failure = Some(detail.clone());
                backend.running = None;
                backend.runtime_id = None;
                backend.load_progress = None;
                self.backends.insert(profile_id.to_owned(), backend);
                let message = cat4(
                    "Model Profile ",
                    profile_id,
                    " exited unexpectedly: ",
                    detail.as_str(),
                );
                self.push_notice(now, RuntimeNoticeLevel::Error, message);
                proof {
                    assert(self@ =~= before.crashed(profile_id@, exit@, now));
                }
                Some(engine_id)
            },
            None => None,
        }
    }
}


/// Where a request is sent.
#[derive(Debug)]
pub struct InferenceTarget {
    pub engine_id: Option<String>,
    pub endpoint: String,
    pub generation_settings: EffectiveGenerationSettings,
    /// The generation of the backend that the request holds.
    pub generation: u64,
}

#[verifier::ext_equal]
pub struct TargetView {
    pub engine_id: Option<Seq<char>>,
    pub endpoint: Seq<char>,
    pub generation_settings: GenerationView,
    pub generation: u64,
}

impl View for InferenceTarget {
    type V = TargetView;

    open spec fn view(&self) -> TargetView {
        TargetView {
            engine_id: optional(self.engine_id),
            endpoint: self.endpoint@,
            generation_settings: self.generation_settings@,
            generation: self.generation,
        }
    }
}

/// How a request goes on after its Model Profile was looked up.
pub enum RouteStart {
    /// It is served at once.
    Ready(InferenceTarget),
    /// It needs the manager to itself.
    Exclusive,
}

/// How a request goes on once it has the manager to itself.
pub enum RouteClaim {
    /// The Model Profile that served the session before is stopped first.
    StopPrevious(String),
    /// Idle backends are reclaimed first.
    Reclaim,
    Proceed,
}

/// What is done about the backend that a request finds.
pub enum RouteExisting {
    Ready(InferenceTarget),
    /// It is stopped, and loaded anew.
    StopFirst,
    Load,
}

impl ManagerView {
    /// What a request gets from the running backend of a Model Profile.
    pub open spec fn target(self, profile_id: Seq<char>) -> TargetView {
        let backend = self.backends[profile_id];
        TargetView {
            engine_id: backend.engine_id,
            endpoint: backend.running->0.endpoint,
            generation_settings: backend.running->0.generation_settings,
            generation: backend.generation,
        }
    }

    /// A backend with one more request.
    pub open spec fn acquired(self, profile_id: Seq<char>, now: i64) -> Self {
        let backend = self.backends[profile_id];
        self.with_backend(
            profile_id,
            BackendView {
                active_requests: if backend.active_requests == usize::MAX {
                    0
                } else {
                    (backend.active_requests + 1) as usize
                },
                last_used_unix: now,
                ..backend
            },
        )
    }

    /// Why a request cannot be served by the backend of its Model Profile now, if it cannot.
    pub open spec fn refusal(self, profile_id: Seq<char>) -> Option<ErrorView> {
        if !self.backends.dom().contains(profile_id) {
            Some(ErrorView::ModelProfileNotLoaded(profile_id))
        } else {
            let backend = self.backends[profile_id];
            if backend.lifecycle == BackendLifecycle::Failed {
                Some(
                    ErrorView::BackendCrashed(
                        match backend.failure {
                            Some(failure) => failure,
                            None => "backend is in a failed state"@,
                        },
                    ),
                )
            } else if backend.running is Some && backend.lifecycle == BackendLifecycle::Running
                && !backend.retiring {
                None
            } else {
                Some(ErrorView::ModelProfileNotLoaded(profile_id))
            }
        }
    }

    /// A session that is known is heard of.
    pub open spec fn touched(self, session_id: Seq<char>, now: i64) -> Self {
        if self.sessions.dom().contains(session_id) {
            ManagerView {
                sessions: self.sessions.insert(
                    session_id,
                    SessionView { last_used_unix: now, ..self.sessions[session_id] },
                ),
                ..self
            }
        } else {
            self
        }
    }

    /// Whether a request can be served without anything changing hands: its backend runs, is not
    /// retiring, was launched from the profile as it is, and, for a primary, serves the session
    /// already.
    pub open spec fn fast(
        self,
        profile_id: Seq<char>,
        profile_hash: Seq<char>,
        role: ModelRole,
        session_id: Seq<char>,
    ) -> bool {
        &&& self.backends.dom().contains(profile_id)
        &&& self.backends[profile_id].lifecycle == BackendLifecycle::Running
        &&& !self.backends[profile_id].retiring
        &&& self.backends[profile_id].launched_from(profile_hash)
        &&& role == ModelRole::Primary ==> self.sessions.dom().contains(session_id)
            && self.sessions[session_id].primary == Some(profile_id)
    }

    /// The session with a Model Profile as its primary.
    pub open spec fn claimed(self, session_id: Seq<char>, profile_id: Seq<char>, now: i64) -> Self {
        ManagerView {
            sessions: self.sessions.insert(
                session_id,
                SessionView { primary: Some(profile_id), last_used_unix: now },
            ),
            ..self
        }
    }

    /// The Model Profile that a session leaves for another.
    pub open spec fn left_behind(self, session_id: Seq<char>, profile_id: Seq<char>) -> Option<
        Seq<char>,
    > {
        if self.sessions.dom().contains(session_id) && self.sessions[session_id].primary is Some
            && self.sessions[session_id].primary != Some(profile_id) {
            self.sessions[session_id].primary
        } else {
            None
        }
    }

    /// Whether a backend that a session left is stopped: it was loaded for requests and serves no
    /// other session.
    pub open spec fn abandoned(self, profile_id: Seq<char>) -> bool {
        self.backends.dom().contains(profile_id) && self.backends[profile_id].residency
            == BackendResidency::Jit && !self.leased(profile_id)
    }
}

impl RuntimeManager {
    fn is_leased(&self, profile_id: &str) -> (result: bool)
        ensures
            result == self@.leased(profile_id@),
    {
        let wanted = Some(profile_id.to_owned());
        let mut i: usize = 0;
        let count: usize = self.sessions.len();
        let ghost keys = self.sessions.keys();
        while i < count
            invariant
                i <= count,
                count == keys.len(),
                keys == self.sessions.keys(),
                keys.to_set() == self.sessions@.dom(),
                optional(wanted) == Some(profile_id@),
                forall|k: int|
                    0 <= k < i ==> self.sessions@[#[trigger] keys[k]].primary != Some(profile_id@),
            decreases count - i,
        {
            if same_optional(&self.sessions.value_at(i).primary, &wanted) {
                proof {
                    assert(self@.sessions.dom().contains(keys[i as int]));
                }
                return true;
            }
            i += 1;
        }
        proof {
            assert forall|session: Seq<char>| #[trigger]
                self@.sessions.dom().contains(session) implies self@.sessions[session].primary
                != Some(profile_id@) by {
                assert(keys.to_set().contains(session));
                let k = choose|k: int| 0 <= k < keys.len() && keys[k] == session;
            }
        }
        false
    }

    /// Takes a request to the backend of a Model Profile, which must run and not be retiring.
    pub fn acquire_target(&mut self, requested: &str, now: i64) -> (result: Result<
        InferenceTarget,
        RuntimeError,
    >)
        requires
            old(self)@.wf(),
        ensures
            final(self)@.wf(),
            old(self)@.begins_nothing(final(self)@),
            match result {
                Ok(target) => old(self)@.refusal(requested@) is None && target@ == old(
                    self)@.target(requested@) && final(self)@ == old(self)@.acquired(requested@, now),
                Err(error) => old(self)@.refusal(requested@) == Some(error@) && final(self)@ == old(
                    self)@,
            },
    {
        let ghost before = self@;
        match self.backends.get(requested) {
            None => {
                return Err(RuntimeError::ModelProfileNotLoaded(requested.to_owned()));
            },
            Some(backend) => {
                if backend.lifecycle == BackendLifecycle::Failed {
                    let failure = match &backend.failure {
                        Some(failure) => failure.clone(),
                        None => "backend is in a failed state".to_owned(),
                    };
                    return Err(RuntimeError::BackendCrashed(failure));
                }
                if backend.running.is_none() || backend.lifecycle != BackendLifecycle::Running
                    || backend.retiring {
                    return Err(RuntimeError::ModelProfileNotLoaded(requested.to_owned()));
                }
            },
        }
        match self.take_request(requested, now) {
            Some(target) => Ok(target),
            None => Err(RuntimeError::ModelProfileNotLoaded(requested.to_owned())),
        }
    }

    /// Counts a request on a backend that has a process.
    fn take_request(&mut self, requested: &str, now: i64) -> (result: Option<InferenceTarget>)
        requires
            old(self)@.wf(),
        ensures
            final(self)@.wf(),
            old(self)@.begins_nothing(final(self)@),
            match result {
                Some(target) => old(self)@.backends.dom().contains(requested@) && old(
                    self)@.backends[requested@].running is Some && target@ == old(self)@.target(
                    requested@,
                ) && final(self)@ == old(self)@.acquired(requested@, now),
                None => !(old(self)@.backends.dom().contains(requested@) && old(
                    self)@.backends[requested@].running is Some) && final(self)@ == old(self)@,
            },
    {
        let ghost before = self@;
        let target = match self.backends.get(requested) {
            Some(backend) => match &backend.running {
                Some(running) => InferenceTarget {
                    engine_id: duplicate_option(&backend.engine_id),
                    endpoint: running.endpoint.clone(),
                    generation_settings: running.generation_settings.duplicate(),
                    generation: backend.generation,
                },
                None => {
                    return None;
                },
            },
            None => {
                return None;
            },
        };
        match self.backends.remove(requested) {
            Some(mut backend) => {
                backend.active_requests =
                if backend.active_requests == usize::MAX {
                    0
                } else {
                    backend.active_requests + 1
                };
                backend.last_used_unix = now;
                self.backends.insert(requested.to_owned(), backend);
                proof {
                    assert(self@ =~= before.acquired(requested@, now));
                }
            },
            None => {},
        }
        Some(target)
    }

    /// Ends a request on a backend. Returns whether it was the last one. A backend that was replaced
    /// since is not concerned.
    pub fn release_target(&mut self, profile_id: &str, generation: u64, now: i64) -> (result: bool)
        requires
            old(self)@.wf(),
        ensures
            final(self)@.wf(),
            old(self)@.begins_nothing(final(self)@),
            ({
                let held = old(self)@.backends.dom().contains(profile_id@) && old(
                    self)@.backends[profile_id@].generation == generation;
                let backend = old(self)@.backends[profile_id@];
                &&& result == (held && backend.active_requests == 1)
                &&& final(self)@ == if held {
                    old(self)@.with_backend(
                        profile_id@,
                        BackendView {
                            active_requests: if backend.active_requests == 0 {
                                usize::MAX
                            } else {
                                (backend.active_requests - 1) as usize
                            },
                            last_used_unix: now,
                            ..backend
                        },
                    )
                } else {
                    old(self)@
                }
            }),
    {
        let ghost before = self@;
        match self.backends.get(profile_id) {
            Some(backend) => if backend.generation != generation {
                return false;
            },
            None => {
                return false;
            },
        }
        match self.backends.remove(profile_id) {
            Some(mut backend) => {
                let last: bool = backend.active_requests == 1;
                backend.active_requests =
                if backend.active_requests == 0 {
                    usize::MAX
                } else {
                    backend.active_requests - 1
                };
                backend.last_used_unix = now;
                self.backends.insert(profile_id.to_owned(), backend);
                proof {
                    assert(self@.backends =~= before.backends.insert(
                        profile_id@,
                        self@.backends[profile_id@],
                    ));
                }
                last
            },
            None => false,
        }
    }

    fn touch_session(&mut self, session_id: &str, now: i64)
        requires
            old(self)@.wf(),
        ensures
            final(self)@.wf(),
            old(self)@.begins_nothing(final(self)@),
            final(self)@ == old(self)@.touched(session_id@, now),
    {
        let ghost before = self@;
        match self.sessions.remove(session_id) {
            Some(mut session) => {
                session.last_used_unix = now;
                self.sessions.insert(session_id.to_owned(), session);
                proof {
                    assert(self@ =~= before.touched(session_id@, now));
                }
            },
            None => {
                proof {
                    assert(self@ =~= before);
                }
            },
        }
    }

    /// Serves a request from a backend that is ready for it, if one is.
    pub fn try_fast_target(
        &mut self,
        requested: &str,
        profile_hash: &str,
        role: ModelRole,
        session_id: &str,
        now: i64,
    ) -> (result: Option<InferenceTarget>)
        requires
            old(self)@.wf(),
        ensures
            final(self)@.wf(),
            old(self)@.begins_nothing(final(self)@),
            match result {
                Some(target) => old(self)@.fast(requested@, profile_hash@, role, session_id@)
                    && target@ == old(self)@.target(requested@) && final(self)@ == (if role
                    == ModelRole::Primary {
                    old(self)@.touched(session_id@, now)
                } else {
                    old(self)@
                }).acquired(requested@, now),
                None => !old(self)@.fast(requested@, profile_hash@, role, session_id@) && final(
                    self)@ == old(self)@,
            },
    {
        let can_route: bool = match self.backends.get(requested) {
            Some(backend) => backend.lifecycle == BackendLifecycle::Running && !backend.retiring
                && backend.was_launched_from(profile_hash),
            None => false,
        };
        if !can_route {
            return None;
        }
        if role == ModelRole::Primary {
            let wanted = Some(requested.to_owned());
            let serves: bool = match self.sessions.get(session_id) {
                Some(session) => same_optional(&session.primary, &wanted),
                None => false,
            };
            if !serves {
                return None;
            }
            self.touch_session(session_id, now);
        }
        self.take_request(requested, now)
    }

    /// Begins to route a request. `lookup` is its Model Profile.
    pub fn inference_start(
        &mut self,
        requested: &str,
        lookup: &ProfileLookup,
        routing: &InferenceRoutingContext,
        now: i64,
    ) -> (result: Result<RouteStart, RuntimeError>)
        requires
            old(self)@.wf(),
        ensures
            final(self)@.wf(),
            old(self)@.begins_nothing(final(self)@),
            if old(self)@.shutting_down {
                result matches Err(error) && error@ == ErrorView::ShuttingDown && final(self)@ == old(
                    self)@
            } else {
                match lookup_view(*lookup) {
                    Err(detail) => result matches Err(error) && error@ == ErrorView::Operation(
                        detail,
                    ) && final(self)@ == old(self)@,
                    Ok(None) => result matches Err(error) && error@
                        == ErrorView::ModelProfileNotFound(requested@) && final(self)@ == old(self)@,
                    Ok(Some(profile)) => {
                        let role = match routing.role {
                            Some(role) => role,
                            None => profile.role,
                        };
                        let heard = old(self)@.touched(routing.session_id@, now);
                        if heard.fast(
                            requested@,
                            profile.content_sha256,
                            role,
                            routing.session_id@,
                        ) {
                            result matches Ok(RouteStart::Ready(target)) && target@ == heard.target(
                                requested@,
                            ) && final(self)@ == (if role == ModelRole::Primary {
                                heard.touched(routing.session_id@, now)
                            } else {
                                heard
                            }).acquired(requested@, now)
                        } else {
                            final(self)@ == heard && if !heard.options.jit_enabled
                                && !heard.backends.dom().contains(requested@) {
                                result matches Err(error) && error@
                                    == ErrorView::ModelProfileNotLoaded(requested@)
                            } else {
                                result matches Ok(RouteStart::Exclusive)
                            }
                        }
                    },
                }
            },
    {
        if self.shutting_down {
            return Err(RuntimeError::ShuttingDown);
        }
        let profile = match lookup {
            Err(error) => {
                return Err(RuntimeError::Operation(error.clone()));
            },
            Ok(None) => {
                return Err(RuntimeError::ModelProfileNotFound(requested.to_owned()));
            },
            Ok(Some(profile)) => profile,
        };
        let role = match routing.role {
            Some(role) => role,
            None => profile.role,
        };
        self.touch_session(routing.session_id.as_str(), now);
        if let Some(target) = self.try_fast_target(
            requested,
            profile.content_sha256.as_str(),
            role,
            routing.session_id.as_str(),
            now,
        ) {
            return Ok(RouteStart::Ready(target));
        }
        if !self.options.jit_enabled && !self.backends.contains(requested) {
            return Err(RuntimeError::ModelProfileNotLoaded(requested.to_owned()));
        }
        Ok(RouteStart::Exclusive)
    }

    /// Goes on with a request that has the manager to itself: as a primary it takes over its
    /// session; as an auxiliary it has idle backends reclaimed.
    pub fn inference_claim(
        &mut self,
        requested: &str,
        session_id: &str,
        role: ModelRole,
        now: i64,
    ) -> (result: RouteClaim)
        requires
            old(self)@.wf(),
        ensures
            final(self)@.wf(),
            old(self)@.begins_nothing(final(self)@),
            match role {
                ModelRole::Auxiliary => result is Reclaim && final(self)@ == old(self)@,
                ModelRole::Primary => {
                    &&& final(self)@ == old(self)@.claimed(session_id@, requested@, now)
                    &&& match old(self)@.left_behind(session_id@, requested@) {
                        Some(previous) => if final(self)@.abandoned(previous) {
                            result matches RouteClaim::StopPrevious(id) && id@ == previous
                        } else {
                            result is Proceed
                        },
                        None => result is Proceed,
                    }
                },
            },
    {
        if role == ModelRole::Auxiliary {
            return RouteClaim::Reclaim;
        }
        let ghost before = self@;
        let previous = match self.sessions.get(session_id) {
            Some(session) => match &session.primary {
                Some(primary) => if same(primary.as_str(), requested) {
                    None
                } else {
                    Some(primary.clone())
                },
                None => None,
            },
            None => None,
        };
        let session = SessionState {
            primary: Some(requested.to_owned()),
            last_used_unix: now,
        };
        self.sessions.insert(session_id.to_owned(), session);
        proof {
            assert(self@ =~= before.claimed(session_id@, requested@, now));
        }
        match previous {
            Some(previous) => {
                let jit: bool = match self.backends.get(previous.as_str()) {
                    Some(backend) => backend.residency == BackendResidency::Jit,
                    None => false,
                };
                if jit && !self.is_leased(previous.as_str()) {
                    RouteClaim::StopPrevious(previous)
                } else {
                    RouteClaim::Proceed
                }
            },
            None => RouteClaim::Proceed,
        }
    }

    /// Decides about the backend that a request finds: it serves, it is stopped and loaded anew, it
    /// is in the way, or there is none and one is loaded.
    pub fn inference_existing(&mut self, requested: &str, profile_hash: &str, now: i64) -> (result:
        Result<RouteExisting, RuntimeError>)
        requires
            old(self)@.wf(),
        ensures
            final(self)@.wf(),
            old(self)@.begins_nothing(final(self)@),
            if !old(self)@.backends.dom().contains(requested@) {
                final(self)@ == old(self)@ && if old(self)@.options.jit_enabled {
                    result matches Ok(RouteExisting::Load)
                } else {
                    result matches Err(error) && error@ == ErrorView::ModelProfileNotLoaded(
                        requested@,
                    )
                }
            } else {
                let backend = old(self)@.backends[requested@];
                match backend.lifecycle {
                    BackendLifecycle::Running => if backend.launched_from(profile_hash@) {
                        match old(self)@.refusal(requested@) {
                            None => result matches Ok(RouteExisting::Ready(target)) && target@ == old(
                                self)@.target(requested@) && final(self)@ == old(self)@.acquired(
                                requested@,
                                now,
                            ),
                            Some(refusal) => result matches Err(error) && error@ == refusal && final(
                                self)@ == old(self)@,
                        }
                    } else {
                        final(self)@ == old(self)@ && match backend.residency {
                            BackendResidency::Jit => result matches Ok(RouteExisting::StopFirst),
                            BackendResidency::Pinned => result matches Err(error) && error@
                                == ErrorView::Operation(
                                "pinned Model Profile `"@ + requested@
                                    + "` was launched from an older profile configuration; unload it before inference"@,
                            ),
                        }
                    },
                    BackendLifecycle::Failed => result matches Ok(RouteExisting::StopFirst) && final(
                        self)@ == old(self)@,
                    lifecycle => result matches Err(error) && error@ == ErrorView::Busy(lifecycle)
                        && final(self)@ == old(self)@,
                }
            },
    {
        let decision = match self.backends.get(requested) {
            None => None,
            Some(backend) => Some(
                (backend.lifecycle, backend.residency, backend.was_launched_from(profile_hash)),
            ),
        };
        match decision {
            None => if self.options.jit_enabled {
                Ok(RouteExisting::Load)
            } else {
                Err(RuntimeError::ModelProfileNotLoaded(requested.to_owned()))
            },
            Some((lifecycle, residency, compatible)) => match lifecycle {
                BackendLifecycle::Running => if compatible {
                    match self.acquire_target(requested, now) {
                        Ok(target) => Ok(RouteExisting::Ready(target)),
                        Err(error) => Err(error),
                    }
                } else {
                    match residency {
                        BackendResidency::Jit => Ok(RouteExisting::StopFirst),
                        BackendResidency::Pinned => Err(
                            RuntimeError::Operation(
                                cat3(
                                    "pinned Model Profile `",
                                    requested,
                                    "` was launched from an older profile configuration; unload it before inference",
                                ),
                            ),
                        ),
                    }
                },
                BackendLifecycle::Failed => Ok(RouteExisting::StopFirst),
                _ => Err(RuntimeError::Busy(lifecycle)),
            },
        }
    }

    /// Whether a request whose backend was stopped or was not there can have one loaded.
    pub fn inference_load(&self, requested: &str, profile: &ModelProfile, model_found: bool) -> (result:
        Result<(), RuntimeError>)
        ensures
            if !self@.options.jit_enabled {
                result matches Err(error) && error@ == ErrorView::ModelProfileNotLoaded(requested@)
            } else if !model_found {
                result matches Err(error) && error@ == ErrorView::BoundModelMissing {
                    profile_id: requested@,
                    model_id: profile.model_id@,
                }
            } else {
                result is Ok
            },
    {
        if !self.options.jit_enabled {
            return Err(RuntimeError::ModelProfileNotLoaded(requested.to_owned()));
        }
        if !model_found {
            return Err(
                RuntimeError::BoundModelMissing {
                    profile_id: requested.to_owned(),
                    model_id: profile.model_id.clone(),
                },
            );
        }
        Ok(())
    }
}

/// What a request is told when the load that it caused failed.
pub fn inference_load_failure(requested: &str, role: ModelRole, error: RuntimeError) -> (result:
    RuntimeError)
    ensures
        result@ == match role {
            ModelRole::Auxiliary => ErrorView::AuxiliaryLoadFailed {
                profile_id: requested@,
                reason: error@.text(),
            },
            ModelRole::Primary => error@,
        },
{
    match role {
        ModelRole::Auxiliary => RuntimeError::AuxiliaryLoadFailed {
            profile_id: requested.to_owned(),
            reason: error.message(),
        },
        ModelRole::Primary => error,
    }
}

} // verus!
