//! What holds of the manager across its operations.
use vstd::prelude::*;
use vstd::string::*;

use super::{
    cancelled_text, AdmissionKind, BackendStatusView, ManagerView, ProfileView, NOTICE_LIMIT,
};
use super::load::{AcquiringRuntime, FinishingLoad, LoadView, SelectedView};
use crate::backend::BackendView;
use crate::lifecycle::{
    BackendLifecycle, BackendLoadPhase, BackendResidency, ErrorView, ModelRole, NoticeView, ProgressView,
    RuntimeNoticeLevel,
};
use crate::order::lemma_text_order_equal;
use crate::supervisor::{ExitView, ProcessView};
use crate::table::{
    first_where, law_keys_are_counted, lemma_first_where_found, lemma_ordered, ordered,
};

verus! {

/// A notice is kept, no more are kept than the limit, and the newest ones stay in order.
pub proof fn law_notices_are_bounded(
    state: ManagerView,
    now: i64,
    level: RuntimeNoticeLevel,
    message: Seq<char>,
)
    requires
        state.notices.len() <= NOTICE_LIMIT,
    ensures
        ({
            let after = state.noticed(now, level, message).notices;
            &&& after.len() <= NOTICE_LIMIT
            &&& after.last() == (NoticeView { timestamp_unix: now, level, message })
            &&& after.drop_last() == state.notices.skip(state.notices.len() - (after.len() - 1))
        }),
{
    let after = state.noticed(now, level, message).notices;
    assert(after.drop_last() =~= state.notices.skip(state.notices.len() - (after.len() - 1)));
}

/// A reserved generation is one above the latest and above every generation that another backend
/// has, and the new backend is found under it. The generations stay in order.
pub proof fn law_reserved_generation_is_fresh(
    state: ManagerView,
    profile_id: Seq<char>,
    model_id: Seq<char>,
    role: ModelRole,
    residency: BackendResidency,
    now: i64,
)
    requires
        state.wf(),
        state.generations_ordered(),
        state.next_generation < u64::MAX,
    ensures
        ({
            let after = state.reserved(profile_id, model_id, role, residency, now);
            &&& after.wf()
            &&& after.generations_ordered()
            &&& after.next_generation == state.next_generation + 1
            &&& after.backends[profile_id].generation == after.next_generation
            &&& after.backends[profile_id].lifecycle == BackendLifecycle::Loading
            &&& forall|id: Seq<char>| #[trigger]
                after.backends.dom().contains(id) && id != profile_id
                    ==> after.backends[id].generation < after.next_generation && after.backends[id]
                    == state.backends[id]
            &&& after.holder(after.next_generation) == Some(profile_id)
        }),
{
    let after = state.reserved(profile_id, model_id, role, residency, now);
    assert(after.generations_ordered());
    lemma_holder(after, profile_id);
}

/// In every operation that begins no load the generations stay in order, and the latest one stays.
pub proof fn law_generations_stay_in_order(state: ManagerView, after: ManagerView)
    requires
        state.generations_ordered(),
        state.begins_no_load(after),
    ensures
        after.generations_ordered(),
        after.next_generation == state.next_generation,
{
}

/// Of two loads the later one has the higher generation, by one where no third was begun between
/// them, and the status shows it: a backend that is loading, with nothing measured yet and no
/// failure.
pub proof fn law_later_load_has_higher_generation(
    state: ManagerView,
    first: Seq<char>,
    between: ManagerView,
    second: Seq<char>,
    model_id: Seq<char>,
    role: ModelRole,
    residency: BackendResidency,
    first_at: i64,
    second_at: i64,
)
    requires
        state.next_generation < u64::MAX,
        state.reserved(first, model_id, role, residency, first_at).next_generation
            <= between.next_generation < u64::MAX,
        between.wf(),
    ensures
        ({
            let begun = state.reserved(first, model_id, role, residency, first_at);
            let after = between.reserved(second, model_id, role, residency, second_at);
            let shown = after.backend_status(second);
            &&& after.backends[second].generation > begun.backends[first].generation
            &&& begun.begins_no_load(between) ==> after.backends[second].generation
                == begun.backends[first].generation + 1
            &&& after.shows(second, shown)
            &&& shown.generation == after.next_generation
            &&& shown.lifecycle == BackendLifecycle::Loading
            &&& shown.failure is None
            &&& shown.load_progress == Some(ProgressView::indeterminate(BackendLoadPhase::Starting))
        }),
{
    law_status_shows_each_backend(
        between.reserved(second, model_id, role, residency, second_at),
        second,
    );
}

impl ManagerView {
    /// Whether the status holds one backend of a Model Profile, as given.
    pub open spec fn shows(self, id: Seq<char>, shown: BackendStatusView) -> bool {
        let listed = self.status().backends;
        exists|at: int|
            0 <= at < listed.len() && #[trigger] listed[at] == shown && shown.model_profile_id == id
                && forall|k: int|
                0 <= k < listed.len() && k != at ==> (#[trigger] listed[k]).model_profile_id != id
    }
}

/// The status shows each backend once.
pub proof fn law_status_shows_each_backend(state: ManagerView, id: Seq<char>)
    requires
        state.wf(),
        state.backends.dom().contains(id),
    ensures
        state.shows(id, state.backend_status(id)),
{
    let ids = ordered(state.backends.dom());
    let listed = state.status().backends;
    lemma_ordered(state.backends.dom());
    assert(ids.contains(id));
    let at = ids.index_of(id);
    assert(listed[at] == state.backend_status(id));
    assert forall|k: int| 0 <= k < listed.len() && k != at implies (
    #[trigger] listed[k]).model_profile_id != id by {
        assert(ids.contains(ids[k]));
        assert(listed[k] == state.backend_status(ids[k]));
        lemma_text_order_equal(ids[k], ids[at]);
        lemma_text_order_equal(ids[at], ids[k]);
    }
}

proof fn lemma_holder(state: ManagerView, id: Seq<char>)
    requires
        state.wf(),
        state.generations_ordered(),
        state.backends.dom().contains(id),
    ensures
        state.holder(state.backends[id].generation) == Some(id),
{
    let generation = state.backends[id].generation;
    let test = |id: Seq<char>| state.backends[id].generation == generation;
    lemma_ordered(state.backends.dom());
    lemma_first_where_found(ordered(state.backends.dom()), test);
    assert(ordered(state.backends.dom()).contains(id));
    assert(test(id));
    let found = state.holder(generation)->0;
    assert(state.backends.dom().contains(found));
}

/// What a load reports lands on its own backend: its progress, and its failure with the reason. No
/// other backend changes.
pub proof fn law_report_lands_on_its_backend(
    state: ManagerView,
    id: Seq<char>,
    progress: ProgressView,
    detail: Seq<char>,
    process: Option<ProcessView>,
    now: i64,
)
    requires
        state.wf(),
        state.generations_ordered(),
        state.backends.dom().contains(id),
    ensures
        ({
            let generation = state.backends[id].generation;
            let progressed = state.progressed(generation, progress);
            let failed = state.failed(generation, detail, process, now);
            &&& progressed == state.with_backend(
                id,
                state.backends[id].progressed(generation, progress),
            )
            &&& failed.backends == state.backends.insert(
                id,
                ManagerView::failed_backend(state.backends[id], detail, process),
            )
            &&& failed.backends[id].lifecycle == BackendLifecycle::Failed
            &&& failed.backends[id].failure == Some(
                ManagerView::failure_detail(state.backends[id], detail),
            )
        }),
{
    lemma_holder(state, id);
}

/// A generation that no backend has any more changes nothing: neither progress nor a failure that is
/// reported under it.
pub proof fn law_forgotten_generation_changes_nothing(
    state: ManagerView,
    generation: u64,
    progress: ProgressView,
    detail: Seq<char>,
    process: Option<ProcessView>,
    now: i64,
)
    requires
        state.wf(),
        forall|id: Seq<char>| #[trigger]
            state.backends.dom().contains(id) ==> state.backends[id].generation != generation,
    ensures
        state.progressed(generation, progress) == state,
        state.failed(generation, detail, process, now) == state,
{
    let test = |id: Seq<char>| state.backends[id].generation == generation;
    lemma_ordered(state.backends.dom());
    lemma_first_where_found(ordered(state.backends.dom()), test);
    if state.holder(generation) is Some {
        let id = state.holder(generation)->0;
        assert(ordered(state.backends.dom()).contains(id));
        assert(state.backends.dom().contains(id));
    }
}

/// Progress concerns no backend but the one that has the generation.
pub proof fn law_progress_concerns_one_backend(
    state: ManagerView,
    generation: u64,
    progress: ProgressView,
    id: Seq<char>,
)
    requires
        state.wf(),
        state.backends.dom().contains(id),
        state.backends[id].generation != generation,
    ensures
        state.progressed(generation, progress).backends[id] == state.backends[id],
{
    let test = |id: Seq<char>| state.backends[id].generation == generation;
    lemma_first_where_found(ordered(state.backends.dom()), test);
}

/// Once the manager shuts down every load is called off and nothing is admitted.
pub proof fn law_shutdown_refuses_loads(
    state: ManagerView,
    epoch: u64,
    operation_free: bool,
    profile_id: Seq<char>,
    lookup: Result<Option<ProfileView>, Seq<char>>,
    model_found: bool,
    runtime_id: Option<Seq<char>>,
    settings_empty: bool,
)
    requires
        state.shutting_down,
    ensures
        state.cancelled(epoch),
        state.admission(
            operation_free,
            profile_id,
            lookup,
            model_found,
            runtime_id,
            settings_empty,
        ) == Err::<AdmissionKind, ErrorView>(ErrorView::ShuttingDown),
{
}

/// A load is never admitted over another one: while the backend of a Model Profile is loading or
/// stopping, a second load is refused as busy and not queued. The refusal names what is under way.
pub proof fn law_second_load_is_busy(
    state: ManagerView,
    operation_free: bool,
    profile_id: Seq<char>,
    profile: ProfileView,
    runtime_id: Option<Seq<char>>,
    settings_empty: bool,
)
    requires
        state.wf(),
        !state.shutting_down,
        state.under_way(profile_id),
    ensures
        ({
            let decision = state.admission(
                operation_free,
                profile_id,
                Ok(Some(profile)),
                true,
                runtime_id,
                settings_empty,
            );
            &&& decision == Err::<AdmissionKind, ErrorView>(
                ErrorView::Busy(
                    if operation_free {
                        state.backends[profile_id].lifecycle
                    } else {
                        state.current()
                    },
                ),
            )
            &&& (forall|id: Seq<char>| #[trigger] state.under_way(id) ==> id == profile_id)
                ==> decision == Err::<AdmissionKind, ErrorView>(
                ErrorView::Busy(state.backends[profile_id].lifecycle),
            )
        }),
{
    if forall|id: Seq<char>| #[trigger] state.under_way(id) ==> id == profile_id {
        lemma_current(state, profile_id);
    }
}

proof fn lemma_current(state: ManagerView, profile_id: Seq<char>)
    requires
        state.wf(),
        state.under_way(profile_id),
        forall|id: Seq<char>| #[trigger] state.under_way(id) ==> id == profile_id,
    ensures
        state.current() == state.backends[profile_id].lifecycle,
{
    let ids = ordered(state.backends.dom());
    let test = |id: Seq<char>|
        state.backends[id].lifecycle == BackendLifecycle::Loading || state.backends[id].lifecycle
            == BackendLifecycle::Stopping;
    lemma_ordered(state.backends.dom());
    lemma_first_where_found(ids, test);
    assert(ids.contains(profile_id));
    assert(test(profile_id));
    let found = first_where(ids, test)->0;
    assert(state.under_way(found));
}

/// A load that was admitted while nothing was under way keeps every other one out: whatever Model
/// Profile is asked for before it has ended, the answer is that a load is under way.
pub proof fn law_admitted_load_keeps_others_out(
    state: ManagerView,
    profile_id: Seq<char>,
    model_id: Seq<char>,
    role: ModelRole,
    residency: BackendResidency,
    now: i64,
    other: Seq<char>,
    lookup: Result<Option<ProfileView>, Seq<char>>,
    model_found: bool,
    runtime_id: Option<Seq<char>>,
    settings_empty: bool,
)
    requires
        state.wf(),
        !state.shutting_down,
        forall|id: Seq<char>| !#[trigger] state.under_way(id),
    ensures
        state.reserved(profile_id, model_id, role, residency, now).admission(
            false,
            other,
            lookup,
            model_found,
            runtime_id,
            settings_empty,
        ) == Err::<AdmissionKind, ErrorView>(ErrorView::Busy(BackendLifecycle::Loading)),
{
    let after = state.reserved(profile_id, model_id, role, residency, now);
    assert forall|id: Seq<char>| #[trigger] after.under_way(id) implies id == profile_id by {
        assert(!state.under_way(id));
    }
    lemma_current(after, profile_id);
}

/// A manager together with its one operation, which a load or an unload holds for a Model Profile from
/// before it begins until it is over.
pub struct OperationView {
    pub state: ManagerView,
    pub held_for: Option<Seq<char>>,
}

/// What happens to a manager: the holder of the operation begins a load or an unload, the operation is
/// given back, or something else is done that begins neither.
pub enum OperationStep {
    Load {
        profile_id: Seq<char>,
        model_id: Seq<char>,
        role: ModelRole,
        residency: BackendResidency,
        now: i64,
    },
    Stop { profile_id: Seq<char>, now: i64 },
    Release,
    Other(ManagerView),
}

impl OperationView {
    /// Whether nothing was done yet.
    pub open spec fn is_first(self) -> bool {
        self.state.wf() && self.held_for is None && self.state.backends.dom() == Set::<
            Seq<char>,
        >::empty()
    }

    /// Whether the operation can be held for a Model Profile: it is free, or already held for it, or
    /// what it was held for is over.
    pub open spec fn free_for(self, profile_id: Seq<char>) -> bool {
        self.held_for matches Some(holder) ==> holder == profile_id || !self.state.under_way(holder)
    }

    pub open spec fn allows(self, step: OperationStep) -> bool {
        match step {
            OperationStep::Load { profile_id, .. } => self.free_for(profile_id),
            OperationStep::Stop { profile_id, .. } => self.free_for(profile_id),
            OperationStep::Release => self.held_for matches Some(holder) ==> !self.state.under_way(
                holder,
            ),
            OperationStep::Other(after) => self.state.begins_nothing(after) && after.wf(),
        }
    }

    pub open spec fn after(self, step: OperationStep) -> OperationView {
        match step {
            OperationStep::Load { profile_id, model_id, role, residency, now } => OperationView {
                state: self.state.reserved(profile_id, model_id, role, residency, now),
                held_for: Some(profile_id),
            },
            OperationStep::Stop { profile_id, now } => OperationView {
                state: self.state.stopping(profile_id, now),
                held_for: Some(profile_id),
            },
            OperationStep::Release => OperationView { held_for: None, ..self },
            OperationStep::Other(after) => OperationView { state: after, ..self },
        }
    }

    /// Whether some steps can be taken one after the other.
    pub open spec fn allows_all(self, steps: Seq<OperationStep>) -> bool
        decreases steps.len(),
    {
        steps.len() == 0 || (self.allows_all(steps.drop_last()) && self.after_all(
            steps.drop_last(),
        ).allows(steps.last()))
    }

    /// After some steps, one after the other.
    pub open spec fn after_all(self, steps: Seq<OperationStep>) -> OperationView
        decreases steps.len(),
    {
        if steps.len() == 0 {
            self
        } else {
            self.after_all(steps.drop_last()).after(steps.last())
        }
    }
}

/// Whatever was done with a manager, a load or an unload is under way of no Model Profile but the one
/// that the operation is held for.
pub proof fn law_one_operation_at_a_time(first: OperationView, steps: Seq<OperationStep>)
    requires
        first.is_first(),
        first.allows_all(steps),
    ensures
        first.after_all(steps).state.wf(),
        forall|id: Seq<char>| #[trigger]
            first.after_all(steps).state.under_way(id) ==> first.after_all(steps).held_for == Some(id),
    decreases steps.len(),
{
    if steps.len() > 0 {
        law_one_operation_at_a_time(first, steps.drop_last());
        let before = first.after_all(steps.drop_last());
        let after = first.after_all(steps);
        assert forall|id: Seq<char>| #[trigger] after.state.under_way(id) implies after.held_for
            == Some(id) by {
            match steps.last() {
                OperationStep::Load { profile_id, .. } => {
                    if id != profile_id {
                        assert(before.state.under_way(id));
                    }
                },
                OperationStep::Stop { profile_id, .. } => {
                    if id != profile_id {
                        assert(before.state.under_way(id));
                    }
                },
                OperationStep::Release => {
                    assert(before.state.under_way(id));
                },
                OperationStep::Other(_) => {
                    assert(before.state.under_way(id));
                },
            }
        }
    }
}

/// Whatever was done with a manager: while a load that was admitted is not over, every further load is
/// refused because a load is under way, whichever Model Profile it is of.
pub proof fn law_load_under_way_refuses_every_other(
    first: OperationView,
    steps: Seq<OperationStep>,
    profile_id: Seq<char>,
    other: Seq<char>,
    lookup: Result<Option<ProfileView>, Seq<char>>,
    model_found: bool,
    runtime_id: Option<Seq<char>>,
    settings_empty: bool,
)
    requires
        first.is_first(),
        first.allows_all(steps),
        first.after_all(steps).state.backends.dom().contains(profile_id),
        first.after_all(steps).state.backends[profile_id].lifecycle == BackendLifecycle::Loading,
        !first.after_all(steps).state.shutting_down,
    ensures
        first.after_all(steps).held_for == Some(profile_id),
        first.after_all(steps).state.admission(
            first.after_all(steps).held_for is None,
            other,
            lookup,
            model_found,
            runtime_id,
            settings_empty,
        ) == Err::<AdmissionKind, ErrorView>(ErrorView::Busy(BackendLifecycle::Loading)),
{
    law_one_operation_at_a_time(first, steps);
    let state = first.after_all(steps).state;
    assert(state.under_way(profile_id));
    lemma_current(state, profile_id);
}

/// What gives the operation back is over: a load that failed or serves, and an unload that came to its
/// end, whatever it came to, are not under way.
pub proof fn law_ended_operation_is_not_under_way(
    state: ManagerView,
    profile_id: Seq<char>,
    detail: Seq<char>,
    process: Option<ProcessView>,
    end: FinishingLoad,
    now: i64,
)
    requires
        state.wf(),
        state.generations_ordered(),
    ensures
        state.backends.dom().contains(profile_id) ==> !state.failed(
            state.backends[profile_id].generation,
            detail,
            process,
            now,
        ).under_way(profile_id),
        state.backends.dom().contains(profile_id) ==> !state.with_backend(
            profile_id,
            end.serving(state.backends[profile_id]),
        ).under_way(profile_id),
        !state.stopped(profile_id, now).under_way(profile_id),
        !state.not_stopped(profile_id, detail, now).under_way(profile_id),
{
    if state.backends.dom().contains(profile_id) {
        lemma_holder(state, profile_id);
    }
}

/// An unloaded Model Profile is gone: it has no backend and is no session's primary. Nothing else
/// changes but the notices.
pub proof fn law_unloaded_profile_is_gone(state: ManagerView, profile_id: Seq<char>, now: i64)
    ensures
        !state.stopped(profile_id, now).backends.dom().contains(profile_id),
        !state.stopped(profile_id, now).leased(profile_id),
        forall|id: Seq<char>| #[trigger]
            state.backends.dom().contains(id) && id != profile_id
                ==> state.stopped(profile_id, now).backends.dom().contains(id) && state.stopped(
                profile_id,
                now,
            ).backends[id] == state.backends[id],
        forall|session: Seq<char>| #[trigger]
            state.sessions.dom().contains(session) && state.sessions[session].primary != Some(
                profile_id,
            ) ==> state.stopped(profile_id, now).sessions[session] == state.sessions[session],
{
    let after = state.stopped(profile_id, now);
    if after.leased(profile_id) {
        let session = choose|session: Seq<char>| #[trigger]
            after.sessions.dom().contains(session) && after.sessions[session].primary == Some(
                profile_id,
            );
        assert(state.sessions.dom().contains(session));
    }
}

/// A request that is served at once could also have been served by asking for the backend: nothing
/// stood in its way, and it gets the same target.
pub proof fn law_fast_route_is_admissible(
    state: ManagerView,
    profile_id: Seq<char>,
    profile_hash: Seq<char>,
    role: ModelRole,
    session_id: Seq<char>,
)
    requires
        state.wf(),
        state.fast(profile_id, profile_hash, role, session_id),
    ensures
        state.refusal(profile_id) is None,
        state.backends[profile_id].launched_from(profile_hash),
        !state.backends[profile_id].retiring,
{
}

/// A session has one primary at a time, and a Model Profile that another session still uses is not
/// stopped when one session leaves it.
pub proof fn law_session_hand_over(
    state: ManagerView,
    session_id: Seq<char>,
    other: Seq<char>,
    profile_id: Seq<char>,
    now: i64,
)
    requires
        other != session_id,
        state.sessions.dom().contains(other),
        state.left_behind(session_id, profile_id) is Some,
        state.sessions[other].primary == state.left_behind(session_id, profile_id),
    ensures
        state.claimed(session_id, profile_id, now).sessions[session_id].primary == Some(profile_id),
        !state.claimed(session_id, profile_id, now).abandoned(
            state.left_behind(session_id, profile_id)->0,
        ),
{
    let after = state.claimed(session_id, profile_id, now);
    assert(after.sessions.dom().contains(other));
}

/// A backend that is being stopped takes no more requests.
pub proof fn law_stopping_backend_takes_no_requests(
    state: ManagerView,
    profile_id: Seq<char>,
    profile_hash: Seq<char>,
    role: ModelRole,
    session_id: Seq<char>,
    now: i64,
)
    requires
        state.backends.dom().contains(profile_id),
    ensures
        !state.stopping(profile_id, now).fast(profile_id, profile_hash, role, session_id),
        state.stopping(profile_id, now).refusal(profile_id) == Some(
            ErrorView::ModelProfileNotLoaded(profile_id),
        ),
{
}

/// A failed load keeps its runtime only for the sake of a process that could not be ended.
pub proof fn law_failed_load_releases_its_runtime(
    backend: BackendView,
    detail: Seq<char>,
    process: Option<ProcessView>,
)
    ensures
        ({
            let after = ManagerView::failed_backend(backend, detail, process);
            &&& after.lifecycle == BackendLifecycle::Failed
            &&& after.failure is Some
            &&& after.load_progress is None
            &&& after.running is None
            &&& process is None ==> !after.loading_lease_held && after.runtime_id is None
            &&& after.generation == backend.generation
        }),
{
}

/// A load that was called off is recorded as such and not as a failure of the phase that it was in.
pub proof fn law_cancelled_load_names_no_phase(backend: BackendView, detail: Seq<char>)
    requires
        backend.cancel_loading || detail == cancelled_text(),
    ensures
        ManagerView::failure_detail(backend, detail) == detail,
{
}

/// A load that was called off, or whose Model Profile is in a newer load, does not go on.
pub proof fn law_outdated_load_does_not_continue(state: ManagerView, load: LoadView)
    requires
        state.cancelled(load.cancellation_epoch) || !state.backends.dom().contains(
            load.model_profile.id,
        ) || state.backends[load.model_profile.id].generation != load.generation,
    ensures
        !state.continues(load),
{
}

/// A load that does not go on never does again, and is never put into service: not after any
/// operation that begins no load, and not after a newer load was begun.
pub proof fn law_ended_load_stays_ended(
    state: ManagerView,
    after: ManagerView,
    load: LoadView,
    end: FinishingLoad,
)
    requires
        state.begins_no_load(after),
    ensures
        !state.continues(load) ==> !after.continues(load),
        end.outdated(state) ==> end.outdated(after),
{
}

/// A load that does not go on does not go on under a newer load either.
pub proof fn law_newer_load_does_not_revive_older(
    state: ManagerView,
    load: LoadView,
    profile_id: Seq<char>,
    model_id: Seq<char>,
    role: ModelRole,
    residency: BackendResidency,
    now: i64,
)
    requires
        load.generation <= state.next_generation < u64::MAX,
        !state.continues(load),
    ensures
        !state.reserved(profile_id, model_id, role, residency, now).continues(load),
{
}

/// The unload of a Model Profile: when a load that is under way was called off, when and with what
/// process left behind it ended, and when the backend was stopped and gone.
pub struct UnloadView {
    pub profile_id: Seq<char>,
    pub called_off_at: i64,
    pub ended_at: i64,
    pub left_behind: Option<ProcessView>,
    pub stopping_at: i64,
    pub stopped_at: i64,
}

impl UnloadView {
    pub open spec fn loading(self, state: ManagerView) -> bool {
        state.backends.dom().contains(self.profile_id) && state.backends[self.profile_id].lifecycle
            == BackendLifecycle::Loading
    }

    /// After a load that was under way was called off.
    pub open spec fn called_off(self, state: ManagerView) -> ManagerView {
        if self.loading(state) {
            state.cancelling(self.profile_id, self.called_off_at)
        } else {
            state
        }
    }

    /// After the load has ended.
    pub open spec fn ended(self, state: ManagerView) -> ManagerView {
        if self.loading(state) {
            self.called_off(state).failed(
                state.backends[self.profile_id].generation,
                cancelled_text(),
                self.left_behind,
                self.ended_at,
            )
        } else {
            state
        }
    }

    /// After the backend was stopped.
    pub open spec fn unloaded(self, state: ManagerView) -> ManagerView {
        if self.ended(state).backends.dom().contains(self.profile_id) {
            self.ended(state).stopping(self.profile_id, self.stopping_at).stopped(
                self.profile_id,
                self.stopped_at,
            )
        } else {
            self.ended(state)
        }
    }
}

/// Unloading a Model Profile whose load is under way: meanwhile its backend is stopping, the load
/// goes no further and is recorded as called off, and in the end the backend is gone and is no
/// session's primary. Where it was the only one, none is left.
pub proof fn law_unload_ends_a_load_under_way(
    state: ManagerView,
    unload: UnloadView,
    load: LoadView,
    end: FinishingLoad,
)
    requires
        state.wf(),
        state.generations_ordered(),
        unload.loading(state),
        load.model_profile.id == unload.profile_id,
        end.started.launches.load@ == load,
    ensures
        ({
            let id = unload.profile_id;
            let meanwhile = unload.called_off(state);
            let ended = unload.ended(state);
            let after = unload.unloaded(state);
            &&& meanwhile.backends[id].lifecycle == BackendLifecycle::Stopping
            &&& !meanwhile.continues(load)
            &&& end.outdated(meanwhile)
            &&& end.reason(meanwhile) == cancelled_text()
            &&& ended.backends[id].lifecycle == BackendLifecycle::Failed
            &&& ended.backends[id].failure == Some(cancelled_text())
            &&& !ended.continues(load)
            &&& end.outdated(ended)
            &&& after.backends.dom() == state.backends.dom().remove(id)
            &&& !after.leased(id)
            &&& state.backends.dom() == set![id] ==> after.backends.dom() == Set::<Seq<char>>::empty()
        }),
{
    let id = unload.profile_id;
    let meanwhile = unload.called_off(state);
    assert(meanwhile.generations_ordered());
    lemma_holder(meanwhile, id);
    let ended = unload.ended(state);
    law_unloaded_profile_is_gone(
        ended.stopping(id, unload.stopping_at),
        id,
        unload.stopped_at,
    );
    let after = unload.unloaded(state);
    assert(after.backends.dom() =~= state.backends.dom().remove(id));
    if state.backends.dom() == set![id] {
        assert(after.backends.dom() =~= Set::<Seq<char>>::empty());
    }
}

/// Some Model Profiles unloaded one after the other.
pub open spec fn all_unloaded(state: ManagerView, unloads: Seq<UnloadView>) -> ManagerView
    decreases unloads.len(),
{
    if unloads.len() == 0 {
        state
    } else {
        all_unloaded(unloads[0].unloaded(state), unloads.skip(1))
    }
}

/// Once the manager is shutting down and each Model Profile was unloaded, no backend is left, and
/// every later load is refused because of the shutdown.
pub proof fn law_shutdown_leaves_no_backend(
    state: ManagerView,
    unloads: Seq<UnloadView>,
    operation_free: bool,
    profile_id: Seq<char>,
    lookup: Result<Option<ProfileView>, Seq<char>>,
    model_found: bool,
    runtime_id: Option<Seq<char>>,
    settings_empty: bool,
)
    requires
        state.wf(),
        state.shutting_down,
        forall|id: Seq<char>| #[trigger]
            state.backends.dom().contains(id) ==> exists|k: int|
                0 <= k < unloads.len() && (#[trigger] unloads[k]).profile_id == id,
    ensures
        all_unloaded(state, unloads).backends.dom() == Set::<Seq<char>>::empty(),
        all_unloaded(state, unloads).status().backends.len() == 0,
        all_unloaded(state, unloads).admission(
            operation_free,
            profile_id,
            lookup,
            model_found,
            runtime_id,
            settings_empty,
        ) == Err::<AdmissionKind, ErrorView>(ErrorView::ShuttingDown),
    decreases unloads.len(),
{
    if unloads.len() == 0 {
        assert(state.backends.dom() =~= Set::<Seq<char>>::empty());
        lemma_ordered(state.backends.dom());
        let ids = ordered(state.backends.dom());
        if ids.len() > 0 {
            assert(ids.contains(ids[0]));
        }
    } else {
        let next = unloads[0].unloaded(state);
        lemma_unloaded(state, unloads[0]);
        let rest = unloads.skip(1);
        assert forall|id: Seq<char>| #[trigger] next.backends.dom().contains(id) implies exists|
            k: int,
        | 0 <= k < rest.len() && (#[trigger] rest[k]).profile_id == id by {
            let k = choose|k: int|
                0 <= k < unloads.len() && (#[trigger] unloads[k]).profile_id == id;
            assert(rest[k - 1] == unloads[k]);
        }
        law_shutdown_leaves_no_backend(
            next,
            rest,
            operation_free,
            profile_id,
            lookup,
            model_found,
            runtime_id,
            settings_empty,
        );
    }
}

proof fn lemma_unloaded(state: ManagerView, unload: UnloadView)
    requires
        state.wf(),
    ensures
        unload.unloaded(state).wf(),
        unload.unloaded(state).shutting_down == state.shutting_down,
        unload.unloaded(state).backends.dom() == state.backends.dom().remove(unload.profile_id),
{
    let meanwhile = unload.called_off(state);
    let ended = unload.ended(state);
    if unload.loading(state) {
        let generation = state.backends[unload.profile_id].generation;
        let test = |id: Seq<char>| meanwhile.backends[id].generation == generation;
        lemma_ordered(meanwhile.backends.dom());
        lemma_first_where_found(ordered(meanwhile.backends.dom()), test);
        if meanwhile.holder(generation) is Some {
            assert(meanwhile.backends.dom().contains(meanwhile.holder(generation)->0));
        }
    }
    assert(ended.backends.dom() =~= state.backends.dom());
    assert(unload.unloaded(state).backends.dom() =~= state.backends.dom().remove(
        unload.profile_id,
    ));
}

/// The failure of an old load leaves the backend of a newer one alone.
pub proof fn law_old_failure_spares_newer_load(
    state: ManagerView,
    generation: u64,
    detail: Seq<char>,
    process: Option<ProcessView>,
    now: i64,
    id: Seq<char>,
)
    requires
        state.wf(),
        state.backends.dom().contains(id),
        state.backends[id].generation != generation,
    ensures
        state.failed(generation, detail, process, now).backends[id] == state.backends[id],
{
    let test = |id: Seq<char>| state.backends[id].generation == generation;
    lemma_first_where_found(ordered(state.backends.dom()), test);
}

proof fn lemma_warnings_change_only_notices(state: ManagerView, warnings: Seq<Seq<char>>, now: i64)
    ensures
        state.warned(warnings, now).backends == state.backends,
        state.warned(warnings, now).sessions == state.sessions,
    decreases warnings.len(),
{
    if warnings.len() > 0 {
        lemma_warnings_change_only_notices(
            state.noticed(now, RuntimeNoticeLevel::Warning, warnings[0]),
            warnings.skip(1),
            now,
        );
    }
}

/// A backend that comes into service holds the lease that its load acquired.
pub proof fn law_serving_backend_holds_its_lease(
    state: ManagerView,
    load: LoadView,
    selection: SelectedView,
    now: i64,
    end: FinishingLoad,
)
    ensures
        ({
            let bound = AcquiringRuntime::bound(state, load, selection, now);
            let backend = end.serving(bound.backends[load.model_profile.id]);
            &&& backend.running is Some
            &&& backend.running->0.lease_held
            &&& backend.lifecycle == BackendLifecycle::Running
            &&& backend.load_progress is None
            &&& backend.runtime_id == Some(selection.runtime_id)
        }),
{
    lemma_warnings_change_only_notices(
        state.with_backend(
            load.model_profile.id,
            BackendView {
                engine_id: Some(load.model_profile.engine_id),
                runtime_id: Some(selection.runtime_id),
                loading_lease_held: true,
                ..state.backends[load.model_profile.id]
            },
        ),
        selection.notices,
        now,
    );
}

/// What a load is told, where the manager is free for it: first what is wrong with the Model Profile or
/// its model; then whether the backend that is there serves, has to go first, or is in the way. A running
/// backend serves only where the load brings no settings, asks for no other runtime, and the profile is
/// the one that it was launched from.
pub proof fn law_loads_are_admitted(
    state: ManagerView,
    profile_id: Seq<char>,
    profile: ProfileView,
    detail: Seq<char>,
    runtime_id: Option<Seq<char>>,
    settings_empty: bool,
)
    requires
        !state.shutting_down,
    ensures
        ({
            let told = |lookup: Result<Option<ProfileView>, Seq<char>>, model_found: bool|
                state.admission(
                    true,
                    profile_id,
                    lookup,
                    model_found,
                    runtime_id,
                    settings_empty,
                );
            let answer = told(Ok(Some(profile)), true);
            let there = state.backends.dom().contains(profile_id);
            let backend = state.backends[profile_id];
            let serves = settings_empty && (runtime_id is None || backend.runtime_id == runtime_id)
                && backend.provenance is Some && backend.provenance->0.content_sha256
                == profile.content_sha256;
            &&& told(Err(detail), true) == Err::<AdmissionKind, ErrorView>(
                ErrorView::Operation(detail),
            )
            &&& told(Ok(None), true) == Err::<AdmissionKind, ErrorView>(
                ErrorView::ModelProfileNotFound(profile_id),
            )
            &&& told(Ok(Some(profile)), false) == Err::<AdmissionKind, ErrorView>(
                ErrorView::BoundModelMissing { profile_id, model_id: profile.model_id },
            )
            &&& !there ==> answer == Ok::<AdmissionKind, ErrorView>(AdmissionKind::Reserve)
            &&& there && backend.lifecycle == BackendLifecycle::Running && serves ==> answer
                == Ok::<AdmissionKind, ErrorView>(AdmissionKind::Reused)
            &&& there && backend.lifecycle == BackendLifecycle::Running && !serves ==> answer
                == Ok::<AdmissionKind, ErrorView>(AdmissionKind::StopFirst)
            &&& there && backend.lifecycle == BackendLifecycle::Failed ==> answer == Ok::<
                AdmissionKind,
                ErrorView,
            >(AdmissionKind::StopFirst)
            &&& there && backend.lifecycle != BackendLifecycle::Running && backend.lifecycle
                != BackendLifecycle::Failed ==> answer == Err::<AdmissionKind, ErrorView>(
                ErrorView::Busy(backend.lifecycle),
            )
        }),
{
}

/// A load that was admitted starts from nothing: it is loading under its own profile, model, role and
/// residency, with no engine, runtime or process, no request and no failure.
pub proof fn law_reserved_load_starts_from_nothing(
    state: ManagerView,
    profile_id: Seq<char>,
    model_id: Seq<char>,
    role: ModelRole,
    residency: BackendResidency,
    now: i64,
)
    ensures
        ({
            let after = state.reserved(profile_id, model_id, role, residency, now);
            let backend = after.backends[profile_id];
            &&& backend.model_profile_id == profile_id
            &&& backend.model_id == model_id
            &&& backend.profile_role == role
            &&& backend.residency == residency
            &&& backend.lifecycle == BackendLifecycle::Loading
            &&& backend.active_requests == 0
            &&& backend.last_used_unix == now
            &&& backend.engine_id is None
            &&& backend.runtime_id is None
            &&& backend.running is None
            &&& backend.loading_process is None
            &&& backend.failure is None
            &&& backend.provenance is None
            &&& !backend.loading_lease_held
            &&& !backend.cancel_loading
            &&& !backend.retiring
            &&& after.sessions == state.sessions
            &&& after.engines == state.engines
            &&& after.options == state.options
            &&& after.shutting_down == state.shutting_down
            &&& after.cancellation_epoch == state.cancellation_epoch
        }),
{
}

/// A request is counted on the backend that serves it, and only there; it is sent to that backend's
/// endpoint and engine; and the backend was used then.
pub proof fn law_requests_are_counted_on_their_backend(
    state: ManagerView,
    profile_id: Seq<char>,
    other: Seq<char>,
    now: i64,
)
    requires
        state.backends.dom().contains(profile_id),
        state.backends[profile_id].active_requests < usize::MAX,
        other != profile_id,
    ensures
        ({
            let after = state.acquired(profile_id, now);
            let backend = state.backends[profile_id];
            &&& after.backends[profile_id].active_requests == backend.active_requests + 1
            &&& after.backends[profile_id].last_used_unix == now
            &&& after.backends[profile_id] == (BackendView {
                active_requests: after.backends[profile_id].active_requests,
                last_used_unix: now,
                ..backend
            })
            &&& after.backends[other] == state.backends[other]
            &&& after.backends.dom() == state.backends.dom()
            &&& after.sessions == state.sessions
            &&& state.target(profile_id).engine_id == backend.engine_id
            &&& state.target(profile_id).endpoint == backend.running->0.endpoint
            &&& state.target(profile_id).generation == backend.generation
        }),
{
    assert(state.acquired(profile_id, now).backends.dom() =~= state.backends.dom());
}

/// A request is served exactly by a backend that runs, has a process and is not on its way out. Where
/// the backend failed the request is told why, and otherwise that the Model Profile is not loaded.
pub proof fn law_requests_are_refused_with_the_reason(state: ManagerView, profile_id: Seq<char>)
    ensures
        ({
            let there = state.backends.dom().contains(profile_id);
            let backend = state.backends[profile_id];
            &&& state.refusal(profile_id) is None <==> there && backend.lifecycle
                == BackendLifecycle::Running && backend.running is Some && !backend.retiring
            &&& there && backend.lifecycle == BackendLifecycle::Failed && backend.failure is Some
                ==> state.refusal(profile_id) == Some(
                ErrorView::BackendCrashed(backend.failure->0),
            )
            &&& there && backend.lifecycle == BackendLifecycle::Failed && backend.failure is None
                ==> state.refusal(profile_id) == Some(
                ErrorView::BackendCrashed("backend is in a failed state"@),
            )
            &&& !there || backend.lifecycle != BackendLifecycle::Failed && (backend.lifecycle
                != BackendLifecycle::Running || backend.running is None || backend.retiring)
                ==> state.refusal(profile_id) == Some(ErrorView::ModelProfileNotLoaded(profile_id))
        }),
{
}

/// A request goes straight to a backend exactly where that runs, is not on its way out and was launched
/// from the profile as it is, and, for a primary, where the session is served by it already.
pub proof fn law_fast_route(
    state: ManagerView,
    profile_id: Seq<char>,
    profile_hash: Seq<char>,
    session_id: Seq<char>,
)
    ensures
        ({
            let ready = state.backends.dom().contains(profile_id)
                && state.backends[profile_id].lifecycle == BackendLifecycle::Running
                && !state.backends[profile_id].retiring && state.backends[profile_id].provenance
                is Some && state.backends[profile_id].provenance->0.content_sha256 == profile_hash;
            let served = state.sessions.dom().contains(session_id)
                && state.sessions[session_id].primary == Some(profile_id);
            &&& state.fast(profile_id, profile_hash, ModelRole::Auxiliary, session_id) <==> ready
            &&& state.fast(profile_id, profile_hash, ModelRole::Primary, session_id) <==> ready
                && served
        }),
{
}

/// A session has one primary, the one that it asked for last; the others keep theirs. What it leaves is
/// the primary that it had, where that is another; and that one is stopped exactly where it was loaded
/// for requests and serves no session any more.
pub proof fn law_sessions_change_hands(
    state: ManagerView,
    session_id: Seq<char>,
    other: Seq<char>,
    profile_id: Seq<char>,
    previous: Seq<char>,
    now: i64,
)
    requires
        other != session_id,
    ensures
        ({
            let after = state.claimed(session_id, profile_id, now);
            &&& after.sessions.dom().contains(session_id)
            &&& after.sessions[session_id].primary == Some(profile_id)
            &&& after.sessions[session_id].last_used_unix == now
            &&& after.sessions.dom().contains(other) == state.sessions.dom().contains(other)
            &&& after.sessions[other] == state.sessions[other]
            &&& after.backends == state.backends
            &&& state.left_behind(session_id, profile_id) == Some(previous)
                <==> state.sessions.dom().contains(session_id) && state.sessions[session_id].primary
                == Some(previous) && previous != profile_id
            &&& state.abandoned(previous) <==> state.backends.dom().contains(previous)
                && state.backends[previous].residency == BackendResidency::Jit && forall|
                session: Seq<char>,
            | #[trigger]
                state.sessions.dom().contains(session) ==> state.sessions[session].primary != Some(
                    previous,
                )
        }),
{
}

/// A session that is heard of was used then, and keeps its primary; one that is not known stays unknown.
pub proof fn law_sessions_are_heard_of(
    state: ManagerView,
    session_id: Seq<char>,
    other: Seq<char>,
    now: i64,
)
    requires
        other != session_id,
    ensures
        ({
            let after = state.touched(session_id, now);
            &&& after.sessions.dom() == state.sessions.dom()
            &&& state.sessions.dom().contains(session_id)
                ==> after.sessions[session_id].last_used_unix == now
                && after.sessions[session_id].primary == state.sessions[session_id].primary
            &&& after.sessions[other] == state.sessions[other]
            &&& after.backends == state.backends
        }),
{
    assert(state.touched(session_id, now).sessions.dom() =~= state.sessions.dom());
}

/// A process that ends without being asked to fails the backend that it runs, exactly if it is the one
/// of that generation that runs; the failure tells the end of the process, and its runtime is free.
pub proof fn law_crash_fails_its_backend(
    state: ManagerView,
    profile_id: Seq<char>,
    other: Seq<char>,
    generation: u64,
    supervisor_id: Seq<char>,
    exit: ExitView,
    now: i64,
)
    requires
        other != profile_id,
    ensures
        state.ends_backend(profile_id, generation, supervisor_id)
            <==> state.backends.dom().contains(profile_id) && state.backends[profile_id].generation
            == generation && state.backends[profile_id].lifecycle == BackendLifecycle::Running
            && state.backends[profile_id].running is Some
            && state.backends[profile_id].running->0.process.supervisor_id == supervisor_id,
        ({
            let after = state.crashed(profile_id, exit, now);
            &&& after.backends[profile_id].lifecycle == BackendLifecycle::Failed
            &&& after.backends[profile_id].running is None
            &&& after.backends[profile_id].runtime_id is None
            &&& exit.stderr_tail.len() == 0 ==> after.backends[profile_id].failure == Some(
                exit.detail,
            )
            &&& after.backends[profile_id].generation == state.backends[profile_id].generation
            &&& after.backends[other] == state.backends[other]
            &&& after.refusal(profile_id) is Some
        }),
{
}

/// A load that failed tells the phase that it failed in, unless it was called off.
pub proof fn law_failures_name_their_phase(backend: BackendView, detail: Seq<char>)
    requires
        backend.lifecycle == BackendLifecycle::Loading,
        backend.load_progress is Some,
        !backend.cancel_loading,
        detail != "model load was cancelled"@,
    ensures
        ManagerView::failure_detail(backend, detail) == "failed while "@
            + backend.load_progress->0.phase.failure_text() + ": "@ + detail,
{
}

/// The status counts the engines that are known, those that are installed and the backends that run;
/// and of each backend it tells its process, its requests and how many sessions it serves.
pub proof fn law_status_counts(state: ManagerView, id: Seq<char>)
    requires
        state.backends.dom().finite(),
        state.engines.dom().finite(),
        state.sessions.dom().finite(),
    ensures
        ({
            let status = state.status();
            let shown = state.backend_status(id);
            let backend = state.backends[id];
            &&& status.available_engine_count == state.engines.dom().len()
            &&& status.installed_engine_count == state.engines.dom().filter(
                |engine: Seq<char>| state.engines[engine].probe.installation is Installed,
            ).len()
            &&& status.running_backend_count == state.backends.dom().filter(
                |one: Seq<char>| state.backends[one].lifecycle == BackendLifecycle::Running,
            ).len()
            &&& status.backends.len() == state.backends.dom().len()
            &&& shown.primary_lease_count == state.sessions.dom().filter(
                |session: Seq<char>|
                    state.sessions[session].primary == Some(backend.model_profile_id),
            ).len()
            &&& shown.active_request_count == backend.active_requests
            &&& shown.lifecycle == backend.lifecycle
            &&& shown.generation == backend.generation
            &&& shown.residency == backend.residency
            &&& shown.role == backend.profile_role
            &&& backend.running is Some ==> shown.process_id == Some(
                backend.running->0.process.process_id,
            ) && shown.private_endpoint == Some(backend.running->0.endpoint)
            &&& backend.running is None && backend.loading_process is Some ==> shown.process_id
                == Some(backend.loading_process->0.process_id)
        }),
{
    law_keys_are_counted(
        state.engines.dom(),
        |engine: Seq<char>| state.engines[engine].probe.installation is Installed,
    );
    law_keys_are_counted(
        state.backends.dom(),
        |one: Seq<char>| state.backends[one].lifecycle == BackendLifecycle::Running,
    );
    law_keys_are_counted(
        state.sessions.dom(),
        |session: Seq<char>|
            state.sessions[session].primary == Some(state.backends[id].model_profile_id),
    );
}

/// An unload drains first: the backend takes no more requests and is stopping, but keeps its process and
/// its requests; a load that is called off is stopping too.
pub proof fn law_unload_drains_first(
    state: ManagerView,
    profile_id: Seq<char>,
    error: Seq<char>,
    now: i64,
)
    requires
        state.backends.dom().contains(profile_id),
    ensures
        ({
            let backend = state.backends[profile_id];
            let after = state.stopping(profile_id, now).backends[profile_id];
            let called_off = state.cancelling(profile_id, now).backends[profile_id];
            &&& after == (BackendView {
                lifecycle: BackendLifecycle::Stopping,
                retiring: true,
                ..backend
            })
            &&& called_off.lifecycle == BackendLifecycle::Stopping
            &&& called_off.cancel_loading
            &&& called_off.loading_process == backend.loading_process
            &&& called_off.generation == backend.generation
            &&& state.not_stopped(profile_id, error, now).backends[profile_id].lifecycle
                == BackendLifecycle::Failed
            &&& state.not_stopped(profile_id, error, now).backends[profile_id].failure == Some(
                error,
            )
        }),
{
}

/// A load whose settings are resolved goes on exactly where each of them is one of the engine's.
pub proof fn law_settings_of_other_engines_stop_a_load(load: LoadView, at: int)
    ensures
        (forall|i: int| 0 <= i < load.settings.len() ==> (#[trigger] load.settings[i]).applies)
            <==> load.misplaced(0) is None,
        0 <= at < load.settings.len() && !load.settings[at].applies && (forall|i: int|
            0 <= i < at ==> (#[trigger] load.settings[i]).applies) ==> load.misplaced(0) == Some(
            load.settings[at].id,
        ),
{
    lemma_misplaced(load, 0, at);
}

proof fn lemma_misplaced(load: LoadView, from: int, at: int)
    requires
        0 <= from <= load.settings.len(),
    ensures
        (forall|i: int| from <= i < load.settings.len() ==> (#[trigger] load.settings[i]).applies)
            <==> load.misplaced(from) is None,
        from <= at < load.settings.len() && !load.settings[at].applies && (forall|i: int|
            from <= i < at ==> (#[trigger] load.settings[i]).applies) ==> load.misplaced(from)
            == Some(load.settings[at].id),
    decreases load.settings.len() - from,
{
    if from < load.settings.len() {
        lemma_misplaced(load, from + 1, at);
    }
}

/// A load goes on exactly while its Model Profile is loading under its own generation, and neither it
/// nor all loads of its time were called off.
pub proof fn law_loads_go_on_until_replaced_or_called_off(state: ManagerView, load: LoadView)
    ensures
        ({
            let id = load.model_profile.id;
            state.continues(load) <==> state.backends.dom().contains(id)
                && state.backends[id].generation == load.generation && state.backends[id].lifecycle
                == BackendLifecycle::Loading && !state.backends[id].cancel_loading
                && !state.shutting_down && state.cancellation_epoch == load.cancellation_epoch
        }),
{
}

/// A backend that serves runs the process that was started for it, at its endpoint and with the settings
/// that were measured, under the generation, role and residency of its load.
pub proof fn law_serving_backend_is_the_one_loaded(end: FinishingLoad, backend: BackendView)
    ensures
        ({
            let after = end.serving(backend);
            let load = end.started.launches.load@;
            &&& after.lifecycle == BackendLifecycle::Running
            &&& after.running is Some
            &&& after.running->0.process == end.started.process@
            &&& after.running->0.endpoint == end.started.endpoint@
            &&& after.running->0.generation_settings == end.generation_settings@
            &&& after.generation == backend.generation
            &&& after.engine_id == backend.engine_id
            &&& after.runtime_id == backend.runtime_id
            &&& after.profile_role == load.profile_role
            &&& after.residency == load.residency
            &&& after.load_progress is None
            &&& after.loading_process is None
            &&& after.active_requests == backend.active_requests
        }),
{
}

} // verus!
