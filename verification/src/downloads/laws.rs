//! What holds of downloads whatever is done with them.
use vstd::prelude::*;

use crate::downloads::{
    without, ActiveControl, DownloadsView, JobView, ModelOperationPhase, OperationView, StartView,
    MAX_RECENT_TERMINAL_JOBS,
};
use crate::table::{lemma_first_where_found, lemma_ordered, ordered};

verus! {

/// Starting downloads forgets none.
pub proof fn lemma_scheduled_keeps(state: DownloadsView, now: u64, id: Seq<char>)
    ensures
        state.scheduled(now).0.jobs.contains_key(id) == state.jobs.contains_key(id),
    decreases state.queue.len(),
{
    if state.active.len() < state.maximum_parallel && state.queue.len() > 0 {
        let first = state.queue[0];
        let next = DownloadsView { queue: state.queue.skip(1), ..state };
        if !state.jobs.contains_key(first) || !state.jobs[first].ready() {
            lemma_scheduled_keeps(next, now, id);
        } else {
            lemma_scheduled_keeps(
                DownloadsView {
                    active: state.active.insert(first),
                    ..next
                }.with_job(first, state.jobs[first].started(now)),
                now,
                id,
            );
        }
    }
}

impl JobView {
    /// Whether a report changes the download.
    pub open spec fn hears(self, generation: Option<u64>) -> bool {
        self.heeds(generation) && self.phase != ModelOperationPhase::Paused && self.phase
            != ModelOperationPhase::Cancelled
    }
}

impl DownloadsView {
    /// Whether the downloads are in order: each is listed once; those that wait are exactly those in
    /// the queue, once each; what runs has an attempt; and no reference is downloaded twice at a time.
    pub open spec fn sound(self) -> bool {
        &&& self.maximum_parallel >= 1
        &&& self.jobs.dom().finite()
        &&& self.active.finite()
        &&& self.order.no_duplicates()
        &&& self.order.to_set() == self.jobs.dom()
        &&& self.queue.no_duplicates()
        &&& forall|id: Seq<char>| #[trigger]
            self.queue.contains(id) <==> self.jobs.contains_key(id) && self.jobs[id].phase
                == ModelOperationPhase::Queued
        &&& forall|id: Seq<char>| #[trigger]
            self.jobs.contains_key(id) && self.jobs[id].phase == ModelOperationPhase::Queued
                ==> self.jobs[id].active_control is None
        &&& forall|id: Seq<char>| #[trigger]
            self.active.contains(id) ==> self.jobs.contains_key(id)
                && self.jobs[id].active_control is Some
        &&& forall|a: Seq<char>, b: Seq<char>|
            #![trigger self.jobs[a], self.jobs[b]]
            self.jobs.contains_key(a) && self.jobs.contains_key(b) && a != b
                && !self.jobs[a].phase.over() && !self.jobs[b].phase.over()
                ==> self.jobs[a].model_ref != self.jobs[b].model_ref
    }

    /// Whether no other download of the same reference is under way.
    pub open spec fn alone(self, id: Seq<char>) -> bool {
        forall|other: Seq<char>| #[trigger]
            self.jobs.contains_key(other) && other != id && !self.jobs[other].phase.over()
                ==> self.jobs[other].model_ref != self.jobs[id].model_ref
    }

    /// Whether an attempt can come to this without putting downloads out of order.
    pub open spec fn may_conclude(
        self,
        id: Seq<char>,
        completion: Option<(ModelOperationPhase, Seq<char>)>,
    ) -> bool {
        completion matches Some((phase, _)) ==> self.jobs[id].hears(None) ==> phase
            != ModelOperationPhase::Queued && (self.jobs[id].phase.over() && !phase.over()
            ==> self.alone(id))
    }

    /// Whether a report can be taken in without putting downloads out of order.
    pub open spec fn may_report(self, progress: OperationView, generation: Option<u64>) -> bool {
        let job = self.jobs[progress.job_id];
        job.hears(generation) ==> (progress.phase == ModelOperationPhase::Queued <==> job.phase
            == ModelOperationPhase::Queued) && (job.phase.over() && !progress.phase.over()
            ==> self.alone(progress.job_id))
    }

    /// Whether no more downloads run than may. It holds from the start until the limit is lowered,
    /// and again once enough of those that ran then are over.
    pub open spec fn within_limit(self) -> bool {
        self.active.len() <= self.maximum_parallel
    }

    /// Whether nothing waits while another download may run.
    pub open spec fn none_waits_in_vain(self) -> bool {
        self.active.len() >= self.maximum_parallel || self.queue.len() == 0
    }
}

/// No downloads are in order.
pub proof fn law_sound_at_first(maximum_parallel: int)
    ensures
        DownloadsView::empty(maximum_parallel).sound(),
        DownloadsView::empty(maximum_parallel).within_limit(),
        DownloadsView::empty(maximum_parallel).none_waits_in_vain(),
{
    let state = DownloadsView::empty(maximum_parallel);
    assert(state.order.to_set() =~= state.jobs.dom());
}

/// Starting what waits keeps downloads in order, starts those that waited longest, in their order, as
/// many as there is room for, and never more. Each goes from waiting to its next attempt, which has
/// another generation than the one before and is not told to stop. No other download changes.
pub proof fn law_downloads_start_in_turn(state: DownloadsView, now: u64)
    requires
        state.sound(),
    ensures
        state.scheduled(now).0.sound(),
        ({
            let (end, starts) = state.scheduled(now);
            let room = if state.active.len() < state.maximum_parallel {
                state.maximum_parallel - state.active.len()
            } else {
                0
            };
            let count = if room < state.queue.len() {
                room
            } else {
                state.queue.len() as int
            };
            &&& starts.len() == count
            &&& end.queue == state.queue.skip(count)
            &&& forall|i: int| 0 <= i < count ==> (#[trigger] starts[i]).id == state.queue[i]
            &&& forall|i: int|
                0 <= i < count ==> state.jobs[(#[trigger] starts[i]).id].phase
                    == ModelOperationPhase::Queued && end.jobs[starts[i].id]
                    == state.jobs[starts[i].id].started(now) && starts[i].generation
                    == end.jobs[starts[i].id].generation && starts[i].generation
                    != state.jobs[starts[i].id].generation
            &&& forall|id: Seq<char>|
                !state.queue.take(count).contains(id) ==> #[trigger] end.jobs.contains_key(id)
                    == state.jobs.contains_key(id) && end.jobs[id] == state.jobs[id]
            &&& end.jobs.dom() == state.jobs.dom()
            &&& end.order == state.order
            &&& end.active == state.active.union(state.queue.take(count).to_set())
            &&& end.active.len() == state.active.len() + count
            &&& end.none_waits_in_vain()
            &&& state.within_limit() ==> end.within_limit()
            &&& end.maximum_parallel == state.maximum_parallel
        }),
    decreases state.queue.len(),
{
    if state.active.len() < state.maximum_parallel && state.queue.len() > 0 {
        let id = state.queue[0];
        assert(state.queue.contains(id));
        let job = state.jobs[id].started(now);
        let next = DownloadsView { queue: state.queue.skip(1), ..state };
        let after = DownloadsView { active: state.active.insert(id), ..next }.with_job(id, job);
        if state.active.contains(id) {
            assert(state.jobs[id].active_control is Some);
            assert(state.jobs.contains_key(id) && state.jobs[id].phase
                == ModelOperationPhase::Queued);
            assert(false);
        }
        assert(after.sound()) by {
            assert(after.jobs.dom() =~= state.jobs.dom());
            assert(after.queue.no_duplicates()) by {
                assert forall|i: int, j: int|
                    0 <= i < after.queue.len() && 0 <= j < after.queue.len() && i
                        != j implies after.queue[i] != after.queue[j] by {
                    assert(after.queue[i] == state.queue[i + 1]);
                    assert(after.queue[j] == state.queue[j + 1]);
                }
            }
            assert forall|one: Seq<char>| #[trigger]
                after.queue.contains(one) <==> after.jobs.contains_key(one)
                    && after.jobs[one].phase == ModelOperationPhase::Queued by {
                if after.queue.contains(one) {
                    let i = after.queue.index_of(one);
                    assert(state.queue[i + 1] == one);
                    assert(state.queue.contains(one));
                    assert(one != id);
                }
                if after.jobs.contains_key(one) && after.jobs[one].phase
                    == ModelOperationPhase::Queued {
                    assert(one != id);
                    assert(state.queue.contains(one));
                    let i = state.queue.index_of(one);
                    assert(after.queue[i - 1] == one);
                }
            }
            assert forall|a: Seq<char>, b: Seq<char>|
                #![trigger after.jobs[a], after.jobs[b]]
                after.jobs.contains_key(a) && after.jobs.contains_key(b) && a != b
                    && !after.jobs[a].phase.over() && !after.jobs[b].phase.over()
                    implies after.jobs[a].model_ref != after.jobs[b].model_ref by {
                assert(state.jobs[a].model_ref == after.jobs[a].model_ref);
                assert(state.jobs[b].model_ref == after.jobs[b].model_ref);
                assert(state.jobs.contains_key(a) && state.jobs.contains_key(b));
            }
            assert forall|one: Seq<char>| #[trigger] after.active.contains(one) implies
                after.jobs.contains_key(one) && after.jobs[one].active_control is Some by {
                if one != id {
                    assert(state.active.contains(one));
                }
            }
            assert forall|one: Seq<char>| #[trigger]
                after.jobs.contains_key(one) && after.jobs[one].phase
                    == ModelOperationPhase::Queued implies after.jobs[one].active_control
                is None by {
                assert(one != id);
                assert(state.jobs.contains_key(one));
            }
        }
        law_downloads_start_in_turn(after, now);
        let (end, starts) = after.scheduled(now);
        let room = after.maximum_parallel - after.active.len();
        let count = if room < after.queue.len() {
            room
        } else {
            after.queue.len() as int
        };
        assert(after.queue.skip(count) =~= state.queue.skip(count + 1));
        let all = state.scheduled(now).1;
        assert(all =~= seq![StartView { id, generation: job.generation }] + starts);
        assert forall|i: int| 0 <= i < count + 1 implies (#[trigger] all[i]).id
            == state.queue[i] by {
            if i > 0 {
                assert(all[i] == starts[i - 1]);
                assert(after.queue[i - 1] == state.queue[i]);
            }
        }
        let taken = state.queue.take(count + 1);
        let later = after.queue.take(count);
        assert forall|one: Seq<char>| #[trigger] taken.contains(one) <==> one == id
            || later.contains(one) by {
            if taken.contains(one) {
                let i = taken.index_of(one);
                if i > 0 {
                    assert(later[i - 1] == one);
                }
            }
            if later.contains(one) {
                let i = later.index_of(one);
                assert(taken[i + 1] == one);
            }
            assert(taken[0] == id);
        }
        assert(!later.contains(id)) by {
            if later.contains(id) {
                let i = later.index_of(id);
                assert(state.queue[i + 1] == state.queue[0]);
            }
        }
        assert(end.active =~= state.active.union(taken.to_set())) by {
            assert forall|one: Seq<char>| end.active.contains(one) == state.active.union(
                taken.to_set(),
            ).contains(one) by {
                assert(taken.to_set().contains(one) == taken.contains(one));
                assert(later.to_set().contains(one) == later.contains(one));
            }
        }
        assert(end.jobs.contains_key(id) && end.jobs[id] == job);
        assert forall|i: int| 0 <= i < count + 1 implies state.jobs[(#[trigger] all[i]).id].phase
            == ModelOperationPhase::Queued && end.jobs[all[i].id] == state.jobs[all[i].id].started(
            now,
        ) && all[i].generation == end.jobs[all[i].id].generation && all[i].generation
            != state.jobs[all[i].id].generation by {
            if i > 0 {
                assert(all[i] == starts[i - 1]);
                assert(later[i - 1] == all[i].id);
                assert(later.contains(all[i].id));
                assert(after.jobs[all[i].id] == state.jobs[all[i].id]);
            }
        }
        assert(end.jobs.dom() =~= state.jobs.dom());
    } else {
        assert(state.queue.skip(0) =~= state.queue);
        assert(state.active.union(state.queue.take(0).to_set()) =~= state.active);
    }
}

/// Where a change touches one download alone, most of what makes downloads sound is left as it was.
proof fn lemma_one_changed(before: DownloadsView, after: DownloadsView, id: Seq<char>, job: JobView)
    requires
        before.sound(),
        before.jobs.contains_key(id),
        after.maximum_parallel == before.maximum_parallel,
        after.order == before.order,
        after.jobs == before.jobs.insert(id, job),
        after.active.finite(),
        forall|one: Seq<char>| one != id ==> (#[trigger] after.active.contains(one)
            ==> before.active.contains(one)),
        after.active.contains(id) ==> job.active_control is Some,
        after.queue.no_duplicates(),
        forall|one: Seq<char>| one != id ==> (#[trigger] after.queue.contains(one)
            <==> before.queue.contains(one)),
        after.queue.contains(id) <==> job.phase == ModelOperationPhase::Queued,
        job.phase == ModelOperationPhase::Queued ==> job.active_control is None,
        job.model_ref == before.jobs[id].model_ref,
        !job.phase.over() ==> !before.jobs[id].phase.over() || before.alone(id),
    ensures
        after.sound(),
{
    assert(after.jobs.dom() =~= before.jobs.dom());
    assert forall|one: Seq<char>| #[trigger] after.queue.contains(one) <==> after.jobs.contains_key(
        one,
    ) && after.jobs[one].phase == ModelOperationPhase::Queued by {
        if one != id {
            assert(before.queue.contains(one) <==> before.jobs.contains_key(one)
                && before.jobs[one].phase == ModelOperationPhase::Queued);
        }
    }
    assert forall|one: Seq<char>| #[trigger] after.active.contains(one) implies
        after.jobs.contains_key(one) && after.jobs[one].active_control is Some by {
        if one != id {
            assert(before.active.contains(one));
        }
    }
    assert forall|one: Seq<char>| #[trigger]
        after.jobs.contains_key(one) && after.jobs[one].phase
            == ModelOperationPhase::Queued implies after.jobs[one].active_control is None by {
        assert(before.jobs.contains_key(one));
    }
    assert forall|a: Seq<char>, b: Seq<char>|
        #![trigger after.jobs[a], after.jobs[b]]
        after.jobs.contains_key(a) && after.jobs.contains_key(b) && a != b
            && !after.jobs[a].phase.over() && !after.jobs[b].phase.over()
            implies after.jobs[a].model_ref != after.jobs[b].model_ref by {
        assert(before.jobs[a].model_ref == after.jobs[a].model_ref);
        assert(before.jobs[b].model_ref == after.jobs[b].model_ref);
        assert(before.jobs.contains_key(a) && before.jobs.contains_key(b));
    }
}

proof fn lemma_without(list: Seq<Seq<char>>, item: Seq<char>)
    ensures
        forall|one: Seq<char>| #[trigger]
            without(list, item).contains(one) <==> list.contains(one) && one != item,
        list.no_duplicates() ==> without(list, item).no_duplicates(),
    decreases list.len(),
{
    if list.len() > 0 {
        let rest = list.drop_last();
        let last = list.last();
        lemma_without(rest, item);
        let end = without(list, item);
        let before = without(rest, item);
        assert forall|one: Seq<char>| #[trigger] end.contains(one) <==> list.contains(one) && one
            != item by {
            if end.contains(one) {
                let i = end.index_of(one);
                if i < before.len() {
                    assert(before[i] == one);
                    assert(before.contains(one));
                    let k = rest.index_of(one);
                    assert(list[k] == one);
                } else {
                    assert(list[list.len() - 1] == one);
                }
            }
            if list.contains(one) && one != item {
                let k = list.index_of(one);
                if k < rest.len() {
                    assert(rest[k] == one);
                    assert(rest.contains(one));
                    assert(before.contains(one));
                    let i = before.index_of(one);
                    assert(end[i] == one);
                } else {
                    assert(end[end.len() - 1] == one);
                }
            }
        }
        if list.no_duplicates() {
            assert(rest.no_duplicates());
            assert forall|i: int, j: int| 0 <= i < end.len() && 0 <= j < end.len() && i
                != j implies end[i] != end[j] by {
                if i < before.len() && j < before.len() {
                    assert(before[i] != before[j]);
                } else {
                    let k = if i < before.len() {
                        i
                    } else {
                        j
                    };
                    assert(before.contains(before[k]));
                    let p = rest.index_of(before[k]);
                    assert(list[p] == before[k]);
                    assert(list[list.len() - 1] == last);
                    assert(list[p] != list[list.len() - 1]);
                }
            }
        }
    }
}

proof fn lemma_pushed(list: Seq<Seq<char>>, item: Seq<char>)
    requires
        list.no_duplicates(),
        !list.contains(item),
    ensures
        list.push(item).no_duplicates(),
        forall|one: Seq<char>| #[trigger]
            list.push(item).contains(one) <==> list.contains(one) || one == item,
{
    let end = list.push(item);
    assert forall|one: Seq<char>| #[trigger] end.contains(one) <==> list.contains(one) || one
        == item by {
        if end.contains(one) {
            let i = end.index_of(one);
            if i < list.len() {
                assert(list[i] == one);
            }
        }
        if list.contains(one) {
            let i = list.index_of(one);
            assert(end[i] == one);
        }
        assert(end[list.len() as int] == item);
    }
    assert forall|i: int, j: int| 0 <= i < end.len() && 0 <= j < end.len() && i != j implies end[i]
        != end[j] by {
        if i < list.len() && j < list.len() {
            assert(list[i] != list[j]);
        } else if i < list.len() {
            assert(list.contains(list[i]));
        } else {
            assert(list.contains(list[j]));
        }
    }
}

/// Asking for a download under an identifier that is not in use keeps downloads in order and within
/// the limit, and leaves nothing to wait in vain.
pub proof fn law_sound_when_enqueued(
    state: DownloadsView,
    model_ref: Seq<char>,
    id: Seq<char>,
    now: u64,
)
    requires
        state.sound(),
        !state.jobs.contains_key(id),
    ensures
        state.admitted(model_ref, id, now).0.sound(),
        state.running(model_ref) is None ==> state.queued(model_ref, id, now).sound(),
        state.within_limit() ==> state.admitted(model_ref, id, now).0.within_limit(),
        state.none_waits_in_vain() ==> state.admitted(model_ref, id, now).0.none_waits_in_vain(),
{
    let test = |one: Seq<char>|
        state.jobs[one].model_ref == model_ref && !state.jobs[one].phase.over();
    lemma_ordered(state.jobs.dom());
    let keys = ordered(state.jobs.dom());
    lemma_first_where_found(keys, test);
    if state.running(model_ref) is None {
        let after = state.queued(model_ref, id, now);
        assert forall|one: Seq<char>| state.jobs.contains_key(one) implies !#[trigger] test(one) by {
            assert(keys.to_set().contains(one));
            assert(keys.contains(one));
        }
        assert(!state.queue.contains(id));
        assert(!state.order.contains(id)) by {
            if state.order.contains(id) {
                assert(state.order.to_set().contains(id));
            }
        }
        lemma_pushed(state.queue, id);
        lemma_pushed(state.order, id);
        assert(after.order.to_set() =~= after.jobs.dom()) by {
            assert forall|one: Seq<char>| after.order.to_set().contains(one)
                == after.jobs.dom().contains(one) by {
                assert(after.order.contains(one) <==> state.order.contains(one) || one == id);
                assert(state.order.to_set().contains(one) == state.order.contains(one));
            }
        }
        assert forall|one: Seq<char>| #[trigger] after.queue.contains(one)
            <==> after.jobs.contains_key(one) && after.jobs[one].phase
            == ModelOperationPhase::Queued by {
            assert(after.queue.contains(one) <==> state.queue.contains(one) || one == id);
        }
        assert forall|one: Seq<char>| #[trigger] after.active.contains(one) implies
            after.jobs.contains_key(one) && after.jobs[one].active_control is Some by {
            assert(state.active.contains(one));
        }
        assert forall|a: Seq<char>, b: Seq<char>|
            #![trigger after.jobs[a], after.jobs[b]]
            after.jobs.contains_key(a) && after.jobs.contains_key(b) && a != b
                && !after.jobs[a].phase.over() && !after.jobs[b].phase.over()
                implies after.jobs[a].model_ref != after.jobs[b].model_ref by {
            if a == id {
                assert(!test(b));
            } else if b == id {
                assert(!test(a));
            } else {
                assert(state.jobs[a] == after.jobs[a] && state.jobs[b] == after.jobs[b]);
            }
        }
        assert(after.sound());
        law_downloads_start_in_turn(after, now);
    }
}

/// Setting the limit keeps downloads in order and leaves nothing to wait in vain. Those that run stay
/// within the limit where it was not lowered below their number.
pub proof fn law_sound_when_limit_is_set(state: DownloadsView, maximum_parallel: int, now: u64)
    requires
        state.sound(),
        maximum_parallel >= 1,
    ensures
        ({
            let after = (DownloadsView { maximum_parallel, ..state }).scheduled(now).0;
            &&& after.sound()
            &&& after.none_waits_in_vain()
            &&& state.active.len() <= maximum_parallel ==> after.within_limit()
            &&& state.active.len() > maximum_parallel ==> after.active == state.active
        }),
{
    law_downloads_start_in_turn(DownloadsView { maximum_parallel, ..state }, now);
}

/// Pausing keeps downloads in order and within the limit, and leaves nothing to wait in vain.
pub proof fn law_sound_when_paused(state: DownloadsView, id: Seq<char>, now: u64)
    requires
        state.sound(),
        state.pause_refusal(id) is None,
    ensures
        state.held(id).sound(),
        state.held(id).scheduled(now).0.sound(),
        state.held(id).scheduled(now).0.none_waits_in_vain(),
        state.within_limit() ==> state.held(id).scheduled(now).0.within_limit(),
        !state.held(id).active.contains(id),
{
    let job = state.jobs[id];
    lemma_without(state.queue, id);
    assert(state.queue.contains(id) <==> job.phase == ModelOperationPhase::Queued);
    if state.active.contains(id) {
        assert(job.active_control is Some);
    }
    lemma_one_changed(state, state.held(id), id, state.held(id).jobs[id]);
    law_downloads_start_in_turn(state.held(id), now);
}

/// Resuming keeps downloads in order and within the limit, and leaves nothing to wait in vain.
pub proof fn law_sound_when_resumed(state: DownloadsView, id: Seq<char>, now: u64)
    requires
        state.sound(),
        state.resume_refusal(id) is None,
    ensures
        state.released(id).sound(),
        state.released(id).scheduled(now).0.sound(),
        state.released(id).scheduled(now).0.none_waits_in_vain(),
        state.within_limit() ==> state.released(id).scheduled(now).0.within_limit(),
{
    assert(!state.queue.contains(id));
    lemma_pushed(state.queue, id);
    lemma_one_changed(state, state.released(id), id, state.released(id).jobs[id]);
    law_downloads_start_in_turn(state.released(id), now);
}

/// Cancelling keeps downloads in order and within the limit, and leaves nothing to wait in vain.
pub proof fn law_sound_when_cancelled(state: DownloadsView, id: Seq<char>, now: u64)
    requires
        state.sound(),
        state.cancel_refusal(id) is None,
    ensures
        state.dropped(id, now).sound(),
        state.dropped(id, now).scheduled(now).0.pruned().sound(),
        state.dropped(id, now).scheduled(now).0.pruned().none_waits_in_vain(),
        state.within_limit() ==> state.dropped(id, now).scheduled(now).0.pruned().within_limit(),
{
    lemma_without(state.queue, id);
    lemma_one_changed(state, state.dropped(id, now), id, state.dropped(id, now).jobs[id]);
    law_downloads_start_in_turn(state.dropped(id, now), now);
    law_few_finished_are_kept(state.dropped(id, now).scheduled(now).0);
}

/// The end of an attempt keeps downloads in order and within the limit, and leaves nothing to wait in
/// vain. What it came to must not be that the download waits, nor take up again what is over while
/// another download of the same reference is under way.
pub proof fn law_sound_when_finished(
    state: DownloadsView,
    id: Seq<char>,
    generation: u64,
    completion: Option<(ModelOperationPhase, Seq<char>)>,
    now: u64,
)
    requires
        state.sound(),
        state.is_current(id, generation),
        state.may_conclude(id, completion),
    ensures
        state.concluded(id, completion, now).sound(),
        state.concluded(id, completion, now).scheduled(now).0.pruned().sound(),
        state.concluded(id, completion, now).scheduled(now).0.pruned().none_waits_in_vain(),
        state.within_limit() ==> state.concluded(id, completion, now).scheduled(
            now,
        ).0.pruned().within_limit(),
{
    let job = state.jobs[id];
    if job.phase == ModelOperationPhase::Queued {
        assert(state.jobs.contains_key(id) && state.jobs[id].phase == ModelOperationPhase::Queued);
        assert(false);
    }
    assert(!state.queue.contains(id));
    lemma_pushed(state.queue, id);
    lemma_one_changed(
        state,
        state.concluded(id, completion, now),
        id,
        state.concluded(id, completion, now).jobs[id],
    );
    law_downloads_start_in_turn(state.concluded(id, completion, now), now);
    law_few_finished_are_kept(state.concluded(id, completion, now).scheduled(now).0);
}

/// A report keeps downloads in order and changes nothing of what runs and waits. A report that is
/// heard must not make a download wait that runs, nor take one from those that wait, nor take up
/// again what is over while another download of the same reference is under way.
pub proof fn law_sound_when_reported(
    state: DownloadsView,
    progress: OperationView,
    generation: Option<u64>,
    now: u64,
)
    requires
        state.sound(),
        state.jobs.contains_key(progress.job_id),
        state.may_report(progress, generation),
    ensures
        ({
            let after = state.with_job(
                progress.job_id,
                state.jobs[progress.job_id].reported(progress, generation, now),
            );
            &&& after.sound()
            &&& after.queue == state.queue
            &&& after.active == state.active
            &&& state.within_limit() ==> after.within_limit()
            &&& state.none_waits_in_vain() ==> after.none_waits_in_vain()
        }),
{
    let id = progress.job_id;
    let job = state.jobs[id].reported(progress, generation, now);
    assert(state.queue.contains(id) <==> state.jobs[id].phase == ModelOperationPhase::Queued);
    if state.active.contains(id) {
        assert(state.jobs[id].active_control is Some);
    }
    lemma_one_changed(state, state.with_job(id, job), id, job);
}

/// What is done with downloads.
pub enum DownloadStep {
    Enqueue { model_ref: Seq<char>, id: Seq<char>, now: u64 },
    Report { progress: OperationView, attempt: Option<u64>, now: u64 },
    Register { id: Seq<char>, attempt: Option<u64>, paths: Set<Seq<char>> },
    Pause { id: Seq<char>, now: u64 },
    Resume { id: Seq<char>, now: u64 },
    Cancel { id: Seq<char>, now: u64 },
    Finish {
        id: Seq<char>,
        generation: u64,
        completion: Option<(ModelOperationPhase, Seq<char>)>,
        now: u64,
    },
}

impl DownloadsView {
    /// What a step leaves before what waits is started, and when that is done, where it is.
    pub open spec fn changed(self, step: DownloadStep) -> (DownloadsView, Option<u64>) {
        match step {
            DownloadStep::Enqueue { model_ref, id, now } => if self.running(model_ref) is None {
                (self.queued(model_ref, id, now), Some(now))
            } else {
                (self, None)
            },
            DownloadStep::Report { progress, attempt, now } => (
                if self.jobs.contains_key(progress.job_id) {
                    self.with_job(
                        progress.job_id,
                        self.jobs[progress.job_id].reported(progress, attempt, now),
                    )
                } else {
                    self
                },
                None,
            ),
            DownloadStep::Register { id, attempt, paths } => (
                if self.jobs.contains_key(id) && self.jobs[id].heeds(attempt) {
                    self.with_job(
                        id,
                        JobView {
                            partial_paths: self.jobs[id].partial_paths + paths,
                            ..self.jobs[id]
                        },
                    )
                } else {
                    self
                },
                None,
            ),
            DownloadStep::Pause { id, now } => if self.pause_refusal(id) is None {
                (self.held(id), Some(now))
            } else {
                (self, None)
            },
            DownloadStep::Resume { id, now } => if self.resume_refusal(id) is None {
                (self.released(id), Some(now))
            } else {
                (self, None)
            },
            DownloadStep::Cancel { id, now } => if self.cancel_refusal(id) is None {
                (self.dropped(id, now), Some(now))
            } else {
                (self, None)
            },
            DownloadStep::Finish { id, generation, completion, now } => if self.is_current(
                id,
                generation,
            ) {
                (self.concluded(id, completion, now), Some(now))
            } else {
                (self, None)
            },
        }
    }

    pub open spec fn after(self, step: DownloadStep) -> DownloadsView {
        match self.changed(step) {
            (changed, Some(now)) => match step {
                DownloadStep::Cancel { .. } => changed.scheduled(now).0.pruned(),
                DownloadStep::Finish { .. } => changed.scheduled(now).0.pruned(),
                _ => changed.scheduled(now).0,
            },
            (changed, None) => changed,
        }
    }

    /// After some steps, one after the other.
    pub open spec fn after_all(self, steps: Seq<DownloadStep>) -> DownloadsView
        decreases steps.len(),
    {
        if steps.len() == 0 {
            self
        } else {
            self.after_all(steps.drop_last()).after(steps.last())
        }
    }

    /// Whether a step cannot put downloads out of order: a new download has an identifier of its own,
    /// and reports and ends are such as attempts give.
    pub open spec fn takes(self, step: DownloadStep) -> bool {
        match step {
            DownloadStep::Enqueue { id, .. } => !self.jobs.contains_key(id),
            DownloadStep::Report { progress, attempt, .. } => self.jobs.contains_key(
                progress.job_id,
            ) ==> self.may_report(progress, attempt),
            DownloadStep::Finish { id, generation, completion, .. } => self.is_current(
                id,
                generation,
            ) ==> self.may_conclude(id, completion),
            _ => true,
        }
    }

    pub open spec fn takes_all(self, steps: Seq<DownloadStep>) -> bool
        decreases steps.len(),
    {
        steps.len() == 0 || (self.takes_all(steps.drop_last()) && self.after_all(
            steps.drop_last(),
        ).takes(steps.last()))
    }

    /// The places in the queue of those that are started.
    pub open spec fn start_places(self, now: u64) -> Seq<int>
        decreases self.queue.len(),
    {
        if self.active.len() >= self.maximum_parallel || self.queue.len() == 0 {
            Seq::empty()
        } else {
            let id = self.queue[0];
            let next = DownloadsView { queue: self.queue.skip(1), ..self };
            if !self.jobs.contains_key(id) || !self.jobs[id].ready() {
                next.start_places(now).map_values(|place: int| place + 1)
            } else {
                seq![0int] + DownloadsView {
                    active: self.active.insert(id),
                    ..next
                }.with_job(id, self.jobs[id].started(now)).start_places(now).map_values(
                    |place: int| place + 1,
                )
            }
        }
    }
}

/// Whether a download is one of those that are started.
pub open spec fn is_started(starts: Seq<StartView>, id: Seq<char>) -> bool {
    exists|i: int| 0 <= i < starts.len() && (#[trigger] starts[i]).id == id
}

/// Whatever state downloads are in, those that are started waited and had no attempt, they are started
/// in the order of the queue, each at the start of an attempt of a new generation that is not told to
/// stop, and no other download changes.
pub proof fn law_waiting_downloads_start_in_order(state: DownloadsView, now: u64)
    ensures
        ({
            let (end, starts) = state.scheduled(now);
            let places = state.start_places(now);
            &&& places.len() == starts.len()
            &&& forall|i: int, j: int| 0 <= i < j < places.len() ==> places[i] < places[j]
            &&& forall|i: int|
                0 <= i < starts.len() ==> 0 <= places[i] < state.queue.len() && (
                #[trigger] starts[i]).id == state.queue[places[i]] && state.jobs.contains_key(
                    starts[i].id,
                ) && state.jobs[starts[i].id].ready() && end.jobs[starts[i].id]
                    == state.jobs[starts[i].id].started(now) && starts[i].generation
                    == end.jobs[starts[i].id].generation && starts[i].generation
                    != state.jobs[starts[i].id].generation
            &&& forall|id: Seq<char>|
                !#[trigger] is_started(starts, id) ==> end.jobs.contains_key(id)
                    == state.jobs.contains_key(id) && end.jobs[id] == state.jobs[id]
        }),
    decreases state.queue.len(),
{
    if state.active.len() < state.maximum_parallel && state.queue.len() > 0 {
        let id = state.queue[0];
        let next = DownloadsView { queue: state.queue.skip(1), ..state };
        let (end, starts) = state.scheduled(now);
        let places = state.start_places(now);
        if !state.jobs.contains_key(id) || !state.jobs[id].ready() {
            law_waiting_downloads_start_in_order(next, now);
            let before = next.start_places(now);
            assert forall|i: int| 0 <= i < starts.len() implies 0 <= places[i] < state.queue.len()
                && (#[trigger] starts[i]).id == state.queue[places[i]] by {
                assert(next.scheduled(now).1[i] == starts[i]);
                assert(places[i] == before[i] + 1);
                assert(next.queue[before[i]] == state.queue[before[i] + 1]);
            }
        } else {
            let job = state.jobs[id].started(now);
            let after = DownloadsView { active: state.active.insert(id), ..next }.with_job(id, job);
            law_waiting_downloads_start_in_order(after, now);
            let rest = after.scheduled(now).1;
            let before = after.start_places(now);
            assert(starts =~= seq![StartView { id, generation: job.generation }] + rest);
            assert forall|i: int| 0 <= i < rest.len() implies (#[trigger] rest[i]).id != id by {
                assert(after.jobs[rest[i].id].ready());
            }
            assert(end == after.scheduled(now).0);
            assert(!is_started(rest, id));
            assert(end.jobs.contains_key(id) && end.jobs[id] == job);
            assert forall|i: int, j: int| 0 <= i < j < places.len() implies places[i] < places[j] by {
                assert(places[j] == before[j - 1] + 1);
                assert(rest[j - 1].id == after.queue[before[j - 1]]);
                if i > 0 {
                    assert(places[i] == before[i - 1] + 1);
                }
            }
            assert forall|i: int| 0 <= i < starts.len() implies 0 <= places[i] < state.queue.len()
                && (#[trigger] starts[i]).id == state.queue[places[i]] && state.jobs.contains_key(
                starts[i].id,
            ) && state.jobs[starts[i].id].ready() && end.jobs[starts[i].id]
                == state.jobs[starts[i].id].started(now) && starts[i].generation
                == end.jobs[starts[i].id].generation && starts[i].generation
                != state.jobs[starts[i].id].generation by {
                if i > 0 {
                    assert(starts[i] == rest[i - 1]);
                    assert(places[i] == before[i - 1] + 1);
                    assert(after.queue[before[i - 1]] == state.queue[before[i - 1] + 1]);
                    assert(rest[i - 1].id != id);
                    assert(after.jobs[rest[i - 1].id] == state.jobs[rest[i - 1].id]);
                }
            }
            assert forall|one: Seq<char>| !#[trigger] is_started(starts, one) implies
                end.jobs.contains_key(one) == state.jobs.contains_key(one) && end.jobs[one]
                == state.jobs[one] by {
                assert(starts[0].id == id);
                if is_started(rest, one) {
                    let i = choose|i: int| 0 <= i < rest.len() && (#[trigger] rest[i]).id == one;
                    assert(starts[i + 1].id == one);
                }
            }
        }
    }
}

proof fn lemma_scheduled_fills(state: DownloadsView, now: u64)
    requires
        state.active.finite(),
    ensures
        ({
            let end = state.scheduled(now).0;
            &&& end.maximum_parallel == state.maximum_parallel
            &&& end.active.finite()
            &&& end.none_waits_in_vain()
            &&& state.within_limit() ==> end.within_limit()
        }),
    decreases state.queue.len(),
{
    if state.active.len() < state.maximum_parallel && state.queue.len() > 0 {
        let id = state.queue[0];
        let next = DownloadsView { queue: state.queue.skip(1), ..state };
        if !state.jobs.contains_key(id) || !state.jobs[id].ready() {
            lemma_scheduled_fills(next, now);
        } else {
            lemma_scheduled_fills(
                DownloadsView { active: state.active.insert(id), ..next }.with_job(
                    id,
                    state.jobs[id].started(now),
                ),
                now,
            );
        }
    }
}

proof fn lemma_forgetting_stops_nothing(state: DownloadsView, excess: nat)
    ensures
        state.forgotten(excess).maximum_parallel == state.maximum_parallel,
        state.forgotten(excess).active == state.active,
        state.forgotten(excess).queue == state.queue,
    decreases state.order.len(),
{
    if excess > 0 && state.order.len() > 0 {
        let id = state.order[0];
        let rest = DownloadsView { order: state.order.skip(1), ..state };
        if state.is_settled(id) {
            lemma_forgetting_stops_nothing(
                DownloadsView { jobs: state.jobs.remove(id), ..rest },
                (excess - 1) as nat,
            );
        } else {
            lemma_forgetting_stops_nothing(rest, excess);
        }
    }
}

/// Whatever is done with downloads, no more run than may, and none waits while another may run.
pub proof fn law_slots_are_kept_and_used(maximum_parallel: int, steps: Seq<DownloadStep>)
    ensures
        ({
            let end = DownloadsView::empty(maximum_parallel).after_all(steps);
            let limit = if maximum_parallel < 1 {
                1
            } else {
                maximum_parallel
            };
            &&& end.maximum_parallel == limit
            &&& end.active.finite()
            &&& end.active.len() <= limit
            &&& end.active.len() == limit || end.queue.len() == 0
        }),
    decreases steps.len(),
{
    if steps.len() > 0 {
        law_slots_are_kept_and_used(maximum_parallel, steps.drop_last());
        let before = DownloadsView::empty(maximum_parallel).after_all(steps.drop_last());
        let (changed, at) = before.changed(steps.last());
        if at is Some {
            lemma_scheduled_fills(changed, at->0);
            let end = changed.scheduled(at->0).0;
            let count = end.settled_count(end.order.len() as int);
            if count > MAX_RECENT_TERMINAL_JOBS {
                lemma_forgetting_stops_nothing(end, (count - MAX_RECENT_TERMINAL_JOBS) as nat);
            }
        }
    }
}

/// Whatever is done with downloads that cannot put them out of order leaves them in order, and what it
/// starts is what waited longest: those at the front of the queue, in their order.
pub proof fn law_downloads_stay_in_order(maximum_parallel: int, steps: Seq<DownloadStep>)
    requires
        DownloadsView::empty(maximum_parallel).takes_all(steps),
    ensures
        DownloadsView::empty(maximum_parallel).after_all(steps).sound(),
        steps.len() > 0 ==> ({
            let before = DownloadsView::empty(maximum_parallel).after_all(steps.drop_last());
            let (changed, at) = before.changed(steps.last());
            &&& changed.sound()
            &&& at matches Some(now) ==> forall|i: int|
                0 <= i < changed.scheduled(now).1.len() ==> (#[trigger] changed.scheduled(
                    now,
                ).1[i]).id == changed.queue[i]
        }),
    decreases steps.len(),
{
    if steps.len() == 0 {
        law_sound_at_first(maximum_parallel);
    } else {
        law_downloads_stay_in_order(maximum_parallel, steps.drop_last());
        let before = DownloadsView::empty(maximum_parallel).after_all(steps.drop_last());
        lemma_step_keeps_order(before, steps.last());
        let (changed, at) = before.changed(steps.last());
        if at is Some {
            law_downloads_start_in_turn(changed, at->0);
        }
    }
}

proof fn lemma_step_keeps_order(state: DownloadsView, step: DownloadStep)
    requires
        state.sound(),
        state.takes(step),
    ensures
        state.changed(step).0.sound(),
        state.after(step).sound(),
{
    match step {
        DownloadStep::Enqueue { model_ref, id, now } => {
            law_sound_when_enqueued(state, model_ref, id, now);
            assert(state.changed(step).0.sound());
        },
        DownloadStep::Report { progress, attempt, now } => {
            if state.jobs.contains_key(progress.job_id) {
                law_sound_when_reported(state, progress, attempt, now);
            }
        },
        DownloadStep::Register { id, attempt, paths } => {
            if state.jobs.contains_key(id) && state.jobs[id].heeds(attempt) {
                let job = JobView {
                    partial_paths: state.jobs[id].partial_paths + paths,
                    ..state.jobs[id]
                };
                assert(state.queue.contains(id) <==> job.phase == ModelOperationPhase::Queued);
                if state.active.contains(id) {
                    assert(state.jobs[id].active_control is Some);
                }
                lemma_one_changed(state, state.with_job(id, job), id, job);
            }
        },
        DownloadStep::Pause { id, now } => {
            if state.pause_refusal(id) is None {
                law_sound_when_paused(state, id, now);
            }
        },
        DownloadStep::Resume { id, now } => {
            if state.resume_refusal(id) is None {
                law_sound_when_resumed(state, id, now);
            }
        },
        DownloadStep::Cancel { id, now } => {
            if state.cancel_refusal(id) is None {
                law_sound_when_cancelled(state, id, now);
            }
        },
        DownloadStep::Finish { id, generation, completion, now } => {
            if state.is_current(id, generation) {
                law_sound_when_finished(state, id, generation, completion, now);
            }
        },
    }
}

/// A download that is paused or cancelled is not changed by reports, and the end of its attempt does
/// not undo either: a cancelled one stays cancelled, and a paused one stays paused unless it was
/// resumed meanwhile, which makes it wait again.
pub proof fn law_held_downloads_stay_held(
    job: JobView,
    progress: OperationView,
    generation: Option<u64>,
    completion: Option<(ModelOperationPhase, Seq<char>)>,
    now: u64,
)
    ensures
        job.phase == ModelOperationPhase::Paused || job.phase == ModelOperationPhase::Cancelled
            ==> job.reported(progress, generation, now) == job,
        job.phase == ModelOperationPhase::Cancelled ==> job.ended(completion, now).phase
            == ModelOperationPhase::Cancelled && job.ended(completion, now).message == job.message,
        job.phase == ModelOperationPhase::Paused ==> job.ended(completion, now).phase
            == if job.resume_after_stop {
            ModelOperationPhase::Queued
        } else {
            ModelOperationPhase::Paused
        },
{
}

/// A report of an attempt that is not the one that runs changes nothing.
pub proof fn law_old_attempts_are_not_heard(
    job: JobView,
    progress: OperationView,
    generation: u64,
    now: u64,
)
    requires
        job.active_control is None || job.active_control->0.generation != generation,
    ensures
        job.reported(progress, Some(generation), now) == job,
{
}

/// Each attempt of a download has another generation than the one before it.
pub proof fn law_attempts_are_told_apart(job: JobView, now: u64)
    ensures
        job.started(now).generation != job.generation,
        job.started(now).generation != 0,
        job.started(now).active_control == Some(
            ActiveControl { generation: job.started(now).generation, stop: false },
        ),
{
}

/// Counting from the front.
proof fn lemma_settled_front(state: DownloadsView, rest: DownloadsView, count: int)
    requires
        0 < count <= state.order.len(),
        rest.order == state.order.skip(1),
        forall|i: int|
            1 <= i < count ==> state.is_settled(#[trigger] state.order[i]) == rest.is_settled(
                state.order[i],
            ),
    ensures
        state.settled_count(count) == rest.settled_count(count - 1) + if state.is_settled(
            state.order[0],
        ) {
            1nat
        } else {
            0nat
        },
    decreases count,
{
    if count > 1 {
        lemma_settled_front(state, rest, count - 1);
        assert(rest.order[count - 2] == state.order[count - 1]);
        assert(state.is_settled(state.order[count - 1]) == rest.is_settled(state.order[count - 1]));
    } else {
        assert(state.settled_count(0) == 0);
        assert(rest.settled_count(0) == 0);
    }
}

/// Forgetting finished downloads keeps the others, each as it was, and as many finished ones fewer.
proof fn lemma_forgotten(state: DownloadsView, excess: nat)
    requires
        state.order.no_duplicates(),
        excess <= state.settled_count(state.order.len() as int),
    ensures
        ({
            let end = state.forgotten(excess);
            &&& end.order.no_duplicates()
            &&& end.queue == state.queue
            &&& end.active == state.active
            &&& end.maximum_parallel == state.maximum_parallel
            &&& end.jobs.submap_of(state.jobs)
            &&& forall|id: Seq<char>| #[trigger] end.order.contains(id) ==> state.order.contains(id)
            &&& forall|id: Seq<char>| #[trigger]
                state.order.contains(id) ==> if end.order.contains(id) {
                    end.jobs.contains_key(id) == state.jobs.contains_key(id)
                } else {
                    state.is_settled(id) && !end.jobs.contains_key(id)
                }
            &&& forall|id: Seq<char>|
                !state.order.contains(id) ==> #[trigger] end.jobs.contains_key(id)
                    == state.jobs.contains_key(id)
            &&& end.settled_count(end.order.len() as int) + excess == state.settled_count(
                state.order.len() as int,
            )
        }),
    decreases state.order.len(),
{
    if excess == 0 || state.order.len() == 0 {
        if state.order.len() == 0 {
            assert(excess == 0);
        }
    } else {
        let id = state.order[0];
        let tail = state.order.skip(1);
        let rest = DownloadsView { order: tail, ..state };
        assert(tail.no_duplicates()) by {
            assert forall|i: int, j: int| 0 <= i < tail.len() && 0 <= j < tail.len() && i
                != j implies tail[i] != tail[j] by {
                assert(tail[i] == state.order[i + 1] && tail[j] == state.order[j + 1]);
            }
        }
        assert(!tail.contains(id)) by {
            if tail.contains(id) {
                let k = tail.index_of(id);
                assert(state.order[k + 1] == state.order[0]);
            }
        }
        assert forall|one: Seq<char>| #[trigger] state.order.contains(one) implies one == id
            || tail.contains(one) by {
            let k = state.order.index_of(one);
            if k > 0 {
                assert(tail[k - 1] == one);
            }
        }
        assert forall|one: Seq<char>| #[trigger] tail.contains(one) implies state.order.contains(
            one,
        ) by {
            let k = tail.index_of(one);
            assert(state.order[k + 1] == one);
        }
        if state.is_settled(id) {
            let next = DownloadsView { jobs: state.jobs.remove(id), ..rest };
            assert forall|i: int| 1 <= i < state.order.len() implies state.is_settled(
                #[trigger] state.order[i],
            ) == next.is_settled(state.order[i]) by {
                assert(state.order[i] != state.order[0]);
            }
            lemma_settled_front(state, next, state.order.len() as int);
            lemma_forgotten(next, (excess - 1) as nat);
            let end = state.forgotten(excess);
            assert(end == next.forgotten((excess - 1) as nat));
            assert(state.order.contains(id));
            assert(!next.order.contains(id));
            assert(!end.order.contains(id));
            assert(!next.jobs.contains_key(id));
            assert(!end.jobs.contains_key(id));
            assert forall|one: Seq<char>| #[trigger] state.order.contains(one) implies
                if end.order.contains(one) {
                end.jobs.contains_key(one) == state.jobs.contains_key(one)
            } else {
                state.is_settled(one) && !end.jobs.contains_key(one)
            } by {
                if one != id {
                    assert(next.order.contains(one));
                    assert(next.jobs.contains_key(one) == state.jobs.contains_key(one));
                    assert(next.is_settled(one) == state.is_settled(one));
                }
            }
            assert forall|one: Seq<char>| !state.order.contains(one) implies
                #[trigger] end.jobs.contains_key(one) == state.jobs.contains_key(one) by {
                assert(!next.order.contains(one));
                assert(one != id);
            }
        } else {
            lemma_settled_front(state, rest, state.order.len() as int);
            lemma_forgotten(rest, excess);
            let part = rest.forgotten(excess);
            let end = state.forgotten(excess);
            assert(end.order =~= seq![id] + part.order);
            assert(end.order.no_duplicates()) by {
                assert forall|i: int, j: int| 0 <= i < end.order.len() && 0 <= j < end.order.len()
                    && i != j implies end.order[i] != end.order[j] by {
                    if i > 0 && j > 0 {
                        assert(end.order[i] == part.order[i - 1] && end.order[j] == part.order[j
                            - 1]);
                    } else {
                        let k = if i > 0 {
                            i
                        } else {
                            j
                        };
                        assert(end.order[k] == part.order[k - 1]);
                        assert(part.order.contains(part.order[k - 1]));
                        assert(tail.contains(part.order[k - 1]));
                    }
                }
            }
            assert forall|one: Seq<char>| #[trigger] end.order.contains(one) <==> one == id
                || part.order.contains(one) by {
                if end.order.contains(one) {
                    let k = end.order.index_of(one);
                    if k > 0 {
                        assert(part.order[k - 1] == one);
                    }
                }
                if part.order.contains(one) {
                    let k = part.order.index_of(one);
                    assert(end.order[k + 1] == one);
                }
                assert(end.order[0] == id);
            }
            assert(!rest.order.contains(id));
            assert(part.jobs.contains_key(id) == state.jobs.contains_key(id));
            assert(part.jobs.submap_of(state.jobs));
            assert(end.is_settled(id) == state.is_settled(id));
            assert(end.order.skip(1) =~= part.order);
            lemma_settled_front(end, part, end.order.len() as int);
            assert forall|one: Seq<char>| #[trigger] state.order.contains(one) implies
                if end.order.contains(one) {
                end.jobs.contains_key(one) == state.jobs.contains_key(one)
            } else {
                state.is_settled(one) && !end.jobs.contains_key(one)
            } by {
                if one != id {
                    assert(rest.order.contains(one));
                    assert(rest.is_settled(one) == state.is_settled(one));
                }
            }
            assert forall|one: Seq<char>| !state.order.contains(one) implies
                #[trigger] end.jobs.contains_key(one) == state.jobs.contains_key(one) by {
                assert(!rest.order.contains(one));
            }
        }
    }
}

/// Finished downloads are forgotten, the oldest first, so that few are kept; downloads that are not
/// over stay as they are, and all is in order.
pub proof fn law_few_finished_are_kept(state: DownloadsView)
    requires
        state.sound(),
    ensures
        state.pruned().sound(),
        state.pruned().queue == state.queue,
        state.pruned().active == state.active,
        state.pruned().maximum_parallel == state.maximum_parallel,
        state.pruned().settled_count(state.pruned().order.len() as int)
            <= MAX_RECENT_TERMINAL_JOBS,
        forall|id: Seq<char>|
            state.jobs.contains_key(id) && !state.jobs[id].settled()
                ==> #[trigger] state.pruned().jobs.contains_key(id) && state.pruned().jobs[id]
                == state.jobs[id],
{
    let count = state.settled_count(state.order.len() as int);
    if count > MAX_RECENT_TERMINAL_JOBS {
        let excess = (count - MAX_RECENT_TERMINAL_JOBS) as nat;
        lemma_forgotten(state, excess);
        let end = state.pruned();
        assert forall|id: Seq<char>| state.jobs.contains_key(id) && !state.jobs[id].settled()
            implies #[trigger] end.jobs.contains_key(id) && end.jobs[id] == state.jobs[id] by {
            assert(state.order.to_set().contains(id));
            assert(state.order.contains(id));
        }
        assert(end.order.to_set() =~= end.jobs.dom()) by {
            assert forall|id: Seq<char>| end.order.to_set().contains(id)
                == end.jobs.dom().contains(id) by {
                assert(state.order.to_set().contains(id) == state.order.contains(id));
                assert(end.order.to_set().contains(id) == end.order.contains(id));
                if state.order.contains(id) {
                    assert(state.jobs.contains_key(id));
                } else {
                    assert(!state.jobs.contains_key(id));
                    assert(end.jobs.contains_key(id) == state.jobs.contains_key(id));
                }
            }
        }
        assert(end.jobs.dom().subset_of(state.jobs.dom()));
        vstd::set_lib::lemma_set_subset_finite(state.jobs.dom(), end.jobs.dom());
        assert forall|id: Seq<char>| #[trigger] end.queue.contains(id) <==> end.jobs.contains_key(
            id,
        ) && end.jobs[id].phase == ModelOperationPhase::Queued by {
            assert(state.queue.contains(id) <==> state.jobs.contains_key(id) && state.jobs[id].phase
                == ModelOperationPhase::Queued);
            if state.queue.contains(id) {
                assert(!state.jobs[id].settled());
                assert(end.jobs.contains_key(id));
            }
        }
        assert forall|id: Seq<char>| #[trigger] end.active.contains(id) implies
            end.jobs.contains_key(id) && end.jobs[id].active_control is Some by {
            assert(state.active.contains(id));
            assert(!state.jobs[id].settled());
            assert(end.jobs.contains_key(id));
        }
        assert forall|id: Seq<char>| #[trigger]
            end.jobs.contains_key(id) && end.jobs[id].phase
                == ModelOperationPhase::Queued implies end.jobs[id].active_control is None by {
            assert(state.jobs.contains_key(id));
        }
        assert forall|a: Seq<char>, b: Seq<char>|
            #![trigger end.jobs[a], end.jobs[b]]
            end.jobs.contains_key(a) && end.jobs.contains_key(b) && a != b
                && !end.jobs[a].phase.over() && !end.jobs[b].phase.over() implies
            end.jobs[a].model_ref != end.jobs[b].model_ref by {
            assert(state.jobs[a] == end.jobs[a] && state.jobs[b] == end.jobs[b]);
        }
    }
}

proof fn lemma_forgotten_in_turn(state: DownloadsView, excess: nat, i: int, j: int)
    requires
        state.order.no_duplicates(),
        0 <= i < j < state.order.len(),
        state.is_settled(state.order[i]),
        state.is_settled(state.order[j]),
    ensures
        state.forgotten(excess).jobs.contains_key(state.order[i]) ==> state.forgotten(
            excess,
        ).jobs.contains_key(state.order[j]),
    decreases state.order.len(),
{
    if excess > 0 {
        let id = state.order[0];
        let rest = DownloadsView { order: state.order.skip(1), ..state };
        assert(rest.order.no_duplicates()) by {
            assert forall|a: int, b: int|
                0 <= a < rest.order.len() && 0 <= b < rest.order.len() && a != b implies rest.order[a]
                != rest.order[b] by {
                assert(rest.order[a] == state.order[a + 1]);
                assert(rest.order[b] == state.order[b + 1]);
            }
        }
        let next = if state.is_settled(id) {
            DownloadsView { jobs: state.jobs.remove(id), ..rest }
        } else {
            rest
        };
        let less = if state.is_settled(id) {
            (excess - 1) as nat
        } else {
            excess
        };
        if i > 0 {
            assert(next.order[i - 1] == state.order[i]);
            assert(next.order[j - 1] == state.order[j]);
            assert(state.order[i] != id && state.order[j] != id);
            lemma_forgotten_in_turn(next, less, i - 1, j - 1);
        } else {
            lemma_forgets_only(next, less, id);
        }
    }
}

proof fn lemma_forgets_only(state: DownloadsView, excess: nat, id: Seq<char>)
    ensures
        state.forgotten(excess).jobs.contains_key(id) ==> state.jobs.contains_key(id),
    decreases state.order.len(),
{
    if excess > 0 && state.order.len() > 0 {
        let first = state.order[0];
        let rest = DownloadsView { order: state.order.skip(1), ..state };
        if state.is_settled(first) {
            lemma_forgets_only(
                DownloadsView { jobs: state.jobs.remove(first), ..rest },
                (excess - 1) as nat,
                id,
            );
        } else {
            lemma_forgets_only(rest, excess, id);
        }
    }
}

/// Of two finished downloads the one that was asked for first is forgotten first: where it is still
/// known, so is the other. None is forgotten while no more are finished than are kept.
pub proof fn law_oldest_finished_are_forgotten_first(state: DownloadsView, i: int, j: int)
    requires
        state.order.no_duplicates(),
        0 <= i < j < state.order.len(),
        state.is_settled(state.order[i]),
        state.is_settled(state.order[j]),
    ensures
        state.pruned().jobs.contains_key(state.order[i]) ==> state.pruned().jobs.contains_key(
            state.order[j],
        ),
        state.settled_count(state.order.len() as int) <= MAX_RECENT_TERMINAL_JOBS ==> state.pruned()
            == state,
{
    let count = state.settled_count(state.order.len() as int);
    if count > MAX_RECENT_TERMINAL_JOBS {
        lemma_forgotten_in_turn(state, (count - MAX_RECENT_TERMINAL_JOBS) as nat, i, j);
    }
}

/// A download can be paused while it waits, is resolved or is transferred, resumed while it is paused,
/// and cancelled as long as it has not reached the stages that end it.
pub proof fn law_what_can_be_done_with_downloads(state: DownloadsView, id: Seq<char>)
    requires
        state.jobs.contains_key(id),
    ensures
        ({
            let phase = state.jobs[id].phase;
            &&& state.pause_refusal(id) is None <==> phase == ModelOperationPhase::Queued || phase
                == ModelOperationPhase::Resolving || phase == ModelOperationPhase::Downloading
            &&& state.resume_refusal(id) is None <==> phase == ModelOperationPhase::Paused
            &&& state.cancel_refusal(id) is None <==> phase == ModelOperationPhase::Queued || phase
                == ModelOperationPhase::Resolving || phase == ModelOperationPhase::Downloading
                || phase == ModelOperationPhase::Paused
        }),
{
}

/// A paused download keeps what it has: the bytes and the partial files. It leaves the queue and its
/// slot, an attempt that runs is told to stop, and the other downloads stay as they are.
pub proof fn law_pausing_keeps_what_is_there(state: DownloadsView, id: Seq<char>, other: Seq<char>)
    requires
        state.jobs.contains_key(id),
        state.pause_refusal(id) is None,
        other != id,
    ensures
        ({
            let (job, held) = (state.jobs[id], state.held(id));
            &&& held.jobs[id].phase == ModelOperationPhase::Paused
            &&& held.jobs[id].downloaded_bytes == job.downloaded_bytes
            &&& held.jobs[id].total_bytes == job.total_bytes
            &&& held.jobs[id].partial_paths == job.partial_paths
            &&& held.jobs[id].model_ref == job.model_ref
            &&& !held.jobs[id].resume_after_stop
            &&& held.jobs[id].finished_at == job.finished_at
            &&& job.phase != ModelOperationPhase::Queued && job.active_control is Some
                ==> held.jobs[id].active_control == Some(
                ActiveControl { generation: job.active_control->0.generation, stop: true },
            )
            &&& job.phase != ModelOperationPhase::Queued ==> !held.active.contains(id)
            &&& job.phase == ModelOperationPhase::Queued ==> !held.queue.contains(id)
            &&& held.jobs.contains_key(other) == state.jobs.contains_key(other)
            &&& held.jobs[other] == state.jobs[other]
            &&& held.active.contains(other) == state.active.contains(other)
            &&& held.queue.contains(other) == state.queue.contains(other)
            &&& held.order == state.order
        }),
{
    lemma_without(state.queue, id);
}

/// A resumed download waits at the end of the queue, or, while the attempt that was paused still runs,
/// for the end of that, after which it waits there too. It keeps its bytes and its partial files.
pub proof fn law_resumed_downloads_wait_again(
    state: DownloadsView,
    id: Seq<char>,
    completion: Option<(ModelOperationPhase, Seq<char>)>,
    now: u64,
)
    requires
        state.jobs.contains_key(id),
        state.resume_refusal(id) is None,
    ensures
        ({
            let (job, after) = (state.jobs[id], state.released(id));
            let ended = after.concluded(id, completion, now);
            &&& after.jobs[id].downloaded_bytes == job.downloaded_bytes
            &&& after.jobs[id].partial_paths == job.partial_paths
            &&& job.active_control is None ==> after.queue == state.queue.push(id)
                && after.jobs[id].phase == ModelOperationPhase::Queued
            &&& job.active_control is Some ==> after.queue == state.queue && after.jobs[id].phase
                == ModelOperationPhase::Paused && ended.queue == state.queue.push(id)
                && ended.jobs[id].phase == ModelOperationPhase::Queued && ended.jobs[id].active_control
                is None && ended.jobs[id].downloaded_bytes == job.downloaded_bytes
                && ended.jobs[id].partial_paths == job.partial_paths
        }),
{
}

/// A cancelled download is over and gives up its place, and its partial files are cleaned up once: now
/// where no attempt runs, otherwise when the attempt has ended, and then nothing of it is left to clean
/// up. The other downloads stay as they are.
pub proof fn law_cancelled_downloads_are_cleaned_up_once(
    state: DownloadsView,
    id: Seq<char>,
    other: Seq<char>,
    completion: Option<(ModelOperationPhase, Seq<char>)>,
    cancelled_at: u64,
    ended_at: u64,
)
    requires
        state.jobs.contains_key(id),
        other != id,
    ensures
        ({
            let (job, after) = (state.jobs[id], state.dropped(id, cancelled_at));
            let ended = after.concluded(id, completion, ended_at);
            &&& after.jobs[id].phase == ModelOperationPhase::Cancelled
            &&& after.jobs[id].finished_at == Some(cancelled_at)
            &&& !after.active.contains(id)
            &&& !after.queue.contains(id)
            &&& job.active_control is None ==> state.cancel_cleanup(id) == job.partial_paths
                && after.jobs[id].partial_paths == Set::<Seq<char>>::empty()
            &&& job.active_control is Some ==> state.cancel_cleanup(id) == Set::<Seq<char>>::empty()
                && after.jobs[id].active_control == Some(
                ActiveControl { generation: job.active_control->0.generation, stop: true },
            ) && after.end_cleanup(id, completion) == job.partial_paths
                && ended.jobs[id].partial_paths == Set::<Seq<char>>::empty()
                && ended.jobs[id].phase == ModelOperationPhase::Cancelled
                && ended.jobs[id].finished_at == Some(cancelled_at)
            &&& after.jobs[other] == state.jobs[other]
            &&& after.jobs.contains_key(other) == state.jobs.contains_key(other)
            &&& after.active.contains(other) == state.active.contains(other)
            &&& after.queue.contains(other) == state.queue.contains(other)
        }),
{
    lemma_without(state.queue, id);
}

/// An attempt that ran to its end leaves the download in the phase that it came to, with its message;
/// partial files are cleaned up only where the model was installed, and are kept for another attempt
/// where it failed.
pub proof fn law_ended_attempts_conclude_their_downloads(
    state: DownloadsView,
    id: Seq<char>,
    phase: ModelOperationPhase,
    message: Seq<char>,
    now: u64,
)
    requires
        state.jobs.contains_key(id),
        state.jobs[id].phase != ModelOperationPhase::Paused,
        state.jobs[id].phase != ModelOperationPhase::Cancelled,
    ensures
        ({
            let (job, after) = (state.jobs[id], state.concluded(id, Some((phase, message)), now));
            &&& after.jobs[id].phase == phase
            &&& after.jobs[id].message == message
            &&& after.jobs[id].active_control is None
            &&& !after.active.contains(id)
            &&& phase == ModelOperationPhase::Installed ==> state.end_cleanup(
                id,
                Some((phase, message)),
            ) == job.partial_paths && after.jobs[id].partial_paths == Set::<Seq<char>>::empty()
            &&& phase == ModelOperationPhase::Failed ==> state.end_cleanup(
                id,
                Some((phase, message)),
            ) == Set::<Seq<char>>::empty() && after.jobs[id].partial_paths == job.partial_paths
            &&& (phase == ModelOperationPhase::Installed || phase == ModelOperationPhase::Failed
                || phase == ModelOperationPhase::Cancelled) && job.finished_at is None
                ==> after.jobs[id].finished_at == Some(now)
        }),
{
}

/// A reference whose download is not over is not downloaded a second time: nothing changes, and what is
/// told is that download. Any other is taken in, at the end of the queue.
pub proof fn law_references_are_downloaded_once(
    state: DownloadsView,
    model_ref: Seq<char>,
    id: Seq<char>,
    now: u64,
)
    requires
        state.jobs.dom().finite(),
    ensures
        ({
            let (after, admission, starts) = state.admitted(model_ref, id, now);
            let busy = exists|other: Seq<char>| #[trigger]
                state.jobs.contains_key(other) && state.jobs[other].model_ref == model_ref
                    && state.jobs[other].phase != ModelOperationPhase::Installed
                    && state.jobs[other].phase != ModelOperationPhase::Failed
                    && state.jobs[other].phase != ModelOperationPhase::Cancelled;
            &&& admission is Duplicate <==> busy
            &&& busy ==> after == state && starts.len() == 0 && admission->Duplicate_0.model_ref
                == model_ref && state.jobs.contains_key(admission->Duplicate_0.id)
            &&& !busy ==> after.jobs.contains_key(id) && after.order == state.order.push(id)
        }),
{
    let test = |one: Seq<char>|
        state.jobs[one].model_ref == model_ref && !state.jobs[one].phase.over();
    lemma_ordered(state.jobs.dom());
    lemma_first_where_found(ordered(state.jobs.dom()), test);
    let found = state.running(model_ref);
    if found is Some {
        assert(ordered(state.jobs.dom()).contains(found->0));
        assert(state.jobs.contains_key(found->0));
    } else {
        let waiting = state.queued(model_ref, id, now);
        lemma_scheduled_keeps(waiting, now, id);
        lemma_scheduled_order(waiting, now);
        assert forall|other: Seq<char>| #[trigger] state.jobs.contains_key(other) implies !(
        state.jobs[other].model_ref == model_ref && !state.jobs[other].phase.over()) by {
            assert(ordered(state.jobs.dom()).contains(other));
            assert(!test(other));
        }
    }
}

proof fn lemma_scheduled_order(state: DownloadsView, now: u64)
    ensures
        state.scheduled(now).0.order == state.order,
    decreases state.queue.len(),
{
    if state.active.len() < state.maximum_parallel && state.queue.len() > 0 {
        let first = state.queue[0];
        let next = DownloadsView { queue: state.queue.skip(1), ..state };
        if !state.jobs.contains_key(first) || !state.jobs[first].ready() {
            lemma_scheduled_order(next, now);
        } else {
            lemma_scheduled_order(
                DownloadsView {
                    active: state.active.insert(first),
                    ..next
                }.with_job(first, state.jobs[first].started(now)),
                now,
            );
        }
    }
}

/// What is shown of a download is what is known of it: how much of the whole is there, never more than
/// the whole; how much is left while it is transferred; how long it has taken; and its place in the
/// queue, counted from one.
pub proof fn law_downloads_are_shown_as_they_are(
    state: DownloadsView,
    id: Seq<char>,
    now: u64,
)
    ensures
        ({
            let job = state.jobs[id];
            let shown = state.shown(id, job, now);
            let end = if job.finished_at is Some {
                job.finished_at->0
            } else {
                now
            };
            let begin = if job.started_at is Some {
                job.started_at->0
            } else {
                job.enqueued_at
            };
            &&& shown.phase == job.phase
            &&& shown.downloaded_bytes == job.downloaded_bytes
            &&& shown.total_bytes == job.total_bytes
            &&& job.total_bytes is Some && job.total_bytes->0 > 0 && job.downloaded_bytes
                <= job.total_bytes->0 ==> shown.progress == Some(
                (job.downloaded_bytes, job.total_bytes->0),
            )
            &&& job.total_bytes is Some && job.total_bytes->0 > 0 && job.downloaded_bytes
                > job.total_bytes->0 ==> shown.progress == Some(
                (job.total_bytes->0, job.total_bytes->0),
            )
            &&& job.total_bytes is None || job.total_bytes->0 == 0 ==> shown.progress is None
            &&& shown.remaining_bytes is Some ==> job.total_bytes is Some
                && shown.remaining_bytes->0 + job.downloaded_bytes == job.total_bytes->0
                && job.phase == ModelOperationPhase::Downloading
            &&& shown.transfer matches Some((bytes, time)) ==> job.phase
                == ModelOperationPhase::Downloading && job.transfer_started_at is Some && bytes
                + job.transfer_baseline_bytes == job.downloaded_bytes && time
                + job.transfer_started_at->0 == end && time > 250_000_000
            &&& begin <= end ==> shown.elapsed + begin == end
            &&& end < begin ==> shown.elapsed == 0
            &&& job.phase == ModelOperationPhase::Queued && state.queue.contains(id)
                ==> shown.queue_position is Some && 1 <= shown.queue_position->0
                <= state.queue.len() && state.queue[shown.queue_position->0 - 1] == id
            &&& job.phase != ModelOperationPhase::Queued ==> shown.queue_position is None
        }),
{
    if state.queue.contains(id) {
        state.queue.index_of_first_ensures(id);
    }
}

} // verus!
