//! Reclaiming of backends that nobody needs any more.
use vstd::prelude::*;
use vstd::string::*;

use super::{since, time_since, ManagerView, RuntimeManager, SessionState};
use crate::duplicate::{duplicate_option, lemma_views_push, optional, views};
use crate::lifecycle::{
    duration_seconds_i64, whole_seconds, BackendLifecycle, BackendResidency, ModelRole,
};
use crate::sorting::{order_of, sort, sorted, Precedes};
use crate::table::{
    kept_where, lemma_kept_once, lemma_kept_where, lemma_ordered_once, lemma_take_grows, ordered, Table,
};
use crate::text::same;

verus! {

/// An idle backend and when it was last used.
pub struct IdleBackend {
    pub profile_id: String,
    pub last_used_unix: i64,
}

#[verifier::ext_equal]
pub struct IdleView {
    pub profile_id: Seq<char>,
    pub last_used_unix: i64,
}

impl View for IdleBackend {
    type V = IdleView;

    open spec fn view(&self) -> IdleView {
        IdleView { profile_id: self.profile_id@, last_used_unix: self.last_used_unix }
    }
}

impl Precedes for IdleBackend {
    open spec fn before(a: IdleView, b: IdleView) -> bool {
        a.last_used_unix < b.last_used_unix
    }

    fn precedes(&self, other: &IdleBackend) -> (result: bool) {
        self.last_used_unix < other.last_used_unix
    }
}

/// From a place on, those idle backends that are among the first ones or were not used for long.
pub open spec fn overdue(
    idle: Seq<IdleView>,
    from: int,
    excess: int,
    now: i64,
    ttl: int,
) -> Seq<Seq<char>>
    decreases idle.len() - from,
{
    if from < 0 || from >= idle.len() {
        Seq::empty()
    } else {
        let rest = overdue(idle, from + 1, excess, now, ttl);
        if since(now, idle[from].last_used_unix) >= ttl || from < excess {
            seq![idle[from].profile_id] + rest
        } else {
            rest
        }
    }
}

impl ManagerView {
    /// The sessions that were heard of recently enough.
    pub open spec fn with_live_sessions(self, now: i64) -> Self {
        ManagerView {
            sessions: Map::new(
                |session: Seq<char>|
                    self.sessions.dom().contains(session) && since(
                        now,
                        self.sessions[session].last_used_unix,
                    ) < whole_seconds(self.options.primary_idle_ttl),
                |session: Seq<char>| self.sessions[session],
            ),
            ..self
        }
    }

    /// A backend that was loaded for requests, serves none and is no session's primary.
    pub open spec fn dispensable(self, id: Seq<char>) -> bool {
        self.backends[id].residency == BackendResidency::Jit && self.backends[id].active_requests
            == 0 && !self.leased(id)
    }

    pub open spec fn idle_auxiliary(self, requested: Option<Seq<char>>, id: Seq<char>) -> bool {
        self.dispensable(id) && self.backends[id].profile_role == ModelRole::Auxiliary
            && self.backends[id].lifecycle == BackendLifecycle::Running && Some(id) != requested
    }

    pub open spec fn idle_primary(self, requested: Option<Seq<char>>, now: i64, id: Seq<char>) -> bool {
        self.dispensable(id) && self.backends[id].profile_role == ModelRole::Primary
            && self.backends[id].lifecycle == BackendLifecycle::Running && Some(id) != requested
            && since(now, self.backends[id].last_used_unix) >= whole_seconds(
            self.options.primary_idle_ttl,
        )
    }

    pub open spec fn stale_failure(self, now: i64, id: Seq<char>) -> bool {
        self.dispensable(id) && self.backends[id].lifecycle == BackendLifecycle::Failed && since(
            now,
            self.backends[id].last_used_unix,
        ) >= whole_seconds(
            match self.backends[id].profile_role {
                ModelRole::Primary => self.options.primary_idle_ttl,
                ModelRole::Auxiliary => self.options.auxiliary_idle_ttl,
            },
        )
    }

    /// The idle auxiliary backends, the one longest unused first.
    pub open spec fn idle_by_use(self, requested: Option<Seq<char>>) -> Seq<IdleView> {
        sorted(
            kept_where(
                ordered(self.backends.dom()),
                |id: Seq<char>| self.idle_auxiliary(requested, id),
            ).map_values(
                |id: Seq<char>|
                    IdleView {
                        profile_id: id,
                        last_used_unix: self.backends[id].last_used_unix,
                    },
            ),
            order_of::<IdleBackend>(),
        )
    }

    /// How many idle auxiliary backends are too many, the one that is asked for counted in.
    pub open spec fn excess(self, requested: Option<Seq<char>>) -> int {
        let counted = self.idle_by_use(requested).len() + if requested is Some {
            1int
        } else {
            0
        };
        let idle = if counted > usize::MAX {
            usize::MAX as int
        } else {
            counted
        };
        if idle > self.options.max_idle_auxiliary_backends {
            idle - self.options.max_idle_auxiliary_backends
        } else {
            0
        }
    }

    /// The backends to stop: of the idle auxiliary ones those that are too many or were not used for
    /// long; then the primary ones that were not used for long; then the failed ones that have been
    /// so for long.
    pub open spec fn reclaimable(self, requested: Option<Seq<char>>, now: i64) -> Seq<Seq<char>> {
        let live = self.with_live_sessions(now);
        overdue(
            live.idle_by_use(requested),
            0,
            live.excess(requested),
            now,
            whole_seconds(self.options.auxiliary_idle_ttl),
        ) + kept_where(
            ordered(self.backends.dom()),
            |id: Seq<char>| live.idle_primary(requested, now, id),
        ) + kept_where(
            ordered(self.backends.dom()),
            |id: Seq<char>| live.stale_failure(now, id),
        )
    }
}

/// The kinds of backends that are looked for one after the other.
#[derive(Clone, Copy, PartialEq, Eq, Structural)]
enum Kind {
    Auxiliary,
    Primary,
    Failure,
}

spec fn of_kind(state: ManagerView, kind: Kind, requested: Option<Seq<char>>, now: i64) -> spec_fn(
    Seq<char>,
) -> bool {
    match kind {
        Kind::Auxiliary => |id: Seq<char>| state.idle_auxiliary(requested, id),
        Kind::Primary => |id: Seq<char>| state.idle_primary(requested, now, id),
        Kind::Failure => |id: Seq<char>| state.stale_failure(now, id),
    }
}

impl RuntimeManager {
    fn drop_stale_sessions(&mut self, now: i64)
        ensures
            final(self)@ == old(self)@.with_live_sessions(now),
    {
        let ghost before = self@;
        let ttl: i64 = duration_seconds_i64(self.options.primary_idle_ttl);
        let mut kept: Table<SessionState> = Table::new();
        let mut i: usize = 0;
        let count: usize = self.sessions.len();
        let ghost keys = self.sessions.keys();
        let ghost all = before.with_live_sessions(now).sessions;
        proof {
            assert(kept@ =~= all.restrict(keys.take(0).to_set()));
        }
        while i < count
            invariant
                i <= count,
                count == keys.len(),
                keys == self.sessions.keys(),
                keys.to_set() == self.sessions@.dom(),
                self@ == before,
                self.sessions@ == before.sessions,
                ttl == whole_seconds(before.options.primary_idle_ttl),
                all == before.with_live_sessions(now).sessions,
                kept@ == all.restrict(keys.take(i as int).to_set()),
            decreases count - i,
        {
            let session = self.sessions.value_at(i);
            proof {
                lemma_take_grows(keys, i as int);
            }
            if time_since(now, session.last_used_unix) < ttl {
                let id = self.sessions.key_at(i).clone();
                let copy = SessionState {
                    primary: duplicate_option(&session.primary),
                    last_used_unix: session.last_used_unix,
                };
                proof {
                    assert(copy@ =~= before.sessions[keys[i as int]]);
                }
                kept.insert(id, copy);
            }
            proof {
                assert(kept@ =~= all.restrict(keys.take(i + 1).to_set()));
            }
            i += 1;
        }
        proof {
            assert(keys.take(i as int) =~= keys);
            assert(kept@ =~= all);
        }
        self.sessions = kept;
    }

    fn is_of_kind(&self, i: usize, kind: Kind, requested: &Option<String>, now: i64) -> (result: bool)
        requires
            i < self.backends.keys().len(),
            self@.wf(),
        ensures
            result == of_kind(self@, kind, optional(*requested), now)(
                self.backends.keys()[i as int],
            ),
    {
        let backend = self.backends.value_at(i);
        let id = backend.model_profile_id.as_str();
        proof {
            assert(self@.backends.dom().contains(self.backends.keys()[i as int]));
        }
        if backend.residency != BackendResidency::Jit || backend.active_requests != 0
            || self.is_leased(id) {
            return false;
        }
        let asked_for: bool = match requested {
            Some(requested) => same(requested.as_str(), id),
            None => false,
        };
        let unused: i64 = time_since(now, backend.last_used_unix);
        let primary_ttl: i64 = duration_seconds_i64(self.options.primary_idle_ttl);
        let auxiliary_ttl: i64 = duration_seconds_i64(self.options.auxiliary_idle_ttl);
        match kind {
            Kind::Auxiliary => backend.profile_role == ModelRole::Auxiliary && backend.lifecycle
                == BackendLifecycle::Running && !asked_for,
            Kind::Primary => backend.profile_role == ModelRole::Primary && backend.lifecycle
                == BackendLifecycle::Running && !asked_for && unused >= primary_ttl,
            Kind::Failure => backend.lifecycle == BackendLifecycle::Failed && match backend.profile_role {
                ModelRole::Primary => unused >= primary_ttl,
                ModelRole::Auxiliary => unused >= auxiliary_ttl,
            },
        }
    }

    fn idle_of_kind(&self, kind: Kind, requested: &Option<String>, now: i64) -> (result: Vec<
        IdleBackend,
    >)
        requires
            self@.wf(),
        ensures
            views(result@) == kept_where(
                ordered(self@.backends.dom()),
                of_kind(self@, kind, optional(*requested), now),
            ).map_values(
                |id: Seq<char>|
                    IdleView {
                        profile_id: id,
                        last_used_unix: self@.backends[id].last_used_unix,
                    },
            ),
    {
        let mut result: Vec<IdleBackend> = Vec::new();
        let mut i: usize = 0;
        let count: usize = self.backends.len();
        let ghost keys = self.backends.keys();
        let ghost state = self@;
        let ghost test = of_kind(state, kind, optional(*requested), now);
        let ghost shown = |id: Seq<char>|
            IdleView { profile_id: id, last_used_unix: state.backends[id].last_used_unix };
        proof {
            assert(views(result@) =~= kept_where(keys.take(0), test).map_values(shown));
        }
        while i < count
            invariant
                i <= count,
                count == keys.len(),
                keys == self.backends.keys(),
                keys == ordered(state.backends.dom()),
                state == self@,
                state.wf(),
                test == of_kind(state, kind, optional(*requested), now),
                shown == (|id: Seq<char>|
                    IdleView { profile_id: id, last_used_unix: state.backends[id].last_used_unix }),
                views(result@) == kept_where(keys.take(i as int), test).map_values(shown),
            decreases count - i,
        {
            proof {
                assert(keys.take(i + 1).drop_last() =~= keys.take(i as int));
                assert(keys.take(i + 1).last() == keys[i as int]);
            }
            if self.is_of_kind(i, kind, requested, now) {
                let entry = IdleBackend {
                    profile_id: self.backends.key_at(i).clone(),
                    last_used_unix: self.backends.value_at(i).last_used_unix,
                };
                proof {
                    lemma_views_push(result@, entry);
                    let some = kept_where(keys.take(i as int), test);
                    assert(some.push(keys[i as int]).map_values(shown) =~= some.map_values(
                        shown,
                    ).push(entry@));
                }
                result.push(entry);
            }
            i += 1;
        }
        proof {
            assert(keys.take(i as int) =~= keys);
        }
        result
    }

    /// Forgets the sessions that were not heard of for long, and returns the Model Profiles whose
    /// backends are to be stopped. `requested` is the Model Profile that is about to be loaded.
    pub fn reclaim_idle(&mut self, requested: &Option<String>, now: i64) -> (result: Vec<String>)
        requires
            old(self)@.wf(),
        ensures
            final(self)@.wf(),
            old(self)@.begins_nothing(final(self)@),
            final(self)@ == old(self)@.with_live_sessions(now),
            views(result@) == old(self)@.reclaimable(optional(*requested), now),
    {
        let ghost before = self@;
        self.drop_stale_sessions(now);
        let ghost live = self@;
        let ghost wanted = optional(*requested);
        let auxiliary_ttl: i64 = duration_seconds_i64(self.options.auxiliary_idle_ttl);
        let auxiliary = self.idle_of_kind(Kind::Auxiliary, requested, now);
        let idle = sort(auxiliary);
        proof {
            assert(views(idle@) == live.idle_by_use(wanted));
            assert(views(idle@).len() == idle.len());
        }
        let limit: usize = self.options.max_idle_auxiliary_backends;
        let incoming: usize = if requested.is_some() {
            1
        } else {
            0
        };
        let excess: usize = idle.len().saturating_add(incoming).saturating_sub(limit);
        let mut selected: Vec<String> = Vec::new();
        let mut i: usize = 0;
        let ghost all = views(idle@);
        let ghost first = overdue(all, 0, excess as int, now, auxiliary_ttl as int);
        proof {
            assert(views(selected@) + first =~= first);
        }
        while i < idle.len()
            invariant
                i <= idle.len(),
                all == views(idle@),
                first == views(selected@) + overdue(
                    all,
                    i as int,
                    excess as int,
                    now,
                    auxiliary_ttl as int,
                ),
            decreases idle.len() - i,
        {
            let ghost done = views(selected@);
            let ghost rest = overdue(all, i + 1, excess as int, now, auxiliary_ttl as int);
            proof {
                assert(all[i as int] == idle@[i as int]@);
            }
            if time_since(now, idle[i].last_used_unix) >= auxiliary_ttl || i < excess {
                let id = idle[i].profile_id.clone();
                proof {
                    lemma_views_push(selected@, id);
                    assert(done + (seq![id@] + rest) =~= done.push(id@) + rest);
                }
                selected.push(id);
            }
            i += 1;
        }
        proof {
            assert(views(selected@) + Seq::<Seq<char>>::empty() =~= views(selected@));
        }
        let primary = self.idle_of_kind(Kind::Primary, requested, now);
        self.append_ids(&mut selected, &primary);
        let failed = self.idle_of_kind(Kind::Failure, requested, now);
        self.append_ids(&mut selected, &failed);
        proof {
            let keys = ordered(live.backends.dom());
            let second = kept_where(keys, of_kind(live, Kind::Primary, wanted, now));
            let third = kept_where(keys, of_kind(live, Kind::Failure, wanted, now));
            let shown = |id: Seq<char>|
                IdleView { profile_id: id, last_used_unix: live.backends[id].last_used_unix };
            assert(second.map_values(shown).map_values(|idle: IdleView| idle.profile_id) =~= second);
            assert(third.map_values(shown).map_values(|idle: IdleView| idle.profile_id) =~= third);
            assert(of_kind(live, Kind::Primary, wanted, now) =~= (|id: Seq<char>|
                live.idle_primary(wanted, now, id)));
            assert(of_kind(live, Kind::Failure, wanted, now) =~= (|id: Seq<char>|
                live.stale_failure(now, id)));
            assert(views(selected@) =~= first + second + third);
        }
        selected
    }

    fn append_ids(&self, selected: &mut Vec<String>, idle: &Vec<IdleBackend>)
        ensures
            views(final(selected)@) == views(old(selected)@) + views(idle@).map_values(
                |idle: IdleView| idle.profile_id,
            ),
    {
        let mut i: usize = 0;
        let ghost start = views(selected@);
        let ghost ids = views(idle@).map_values(|idle: IdleView| idle.profile_id);
        proof {
            assert(start + ids.take(0) =~= start);
        }
        while i < idle.len()
            invariant
                i <= idle.len(),
                ids == views(idle@).map_values(|idle: IdleView| idle.profile_id),
                views(selected@) == start + ids.take(i as int),
            decreases idle.len() - i,
        {
            let id = idle[i].profile_id.clone();
            proof {
                lemma_views_push(selected@, id);
                assert(ids[i as int] == id@);
                assert(start + ids.take(i + 1) =~= (start + ids.take(i as int)).push(id@));
            }
            selected.push(id);
            i += 1;
        }
        proof {
            assert(ids.take(i as int) =~= ids);
        }
    }
}

proof fn lemma_overdue_among(
    idle: Seq<IdleView>,
    from: int,
    excess: int,
    now: i64,
    ttl: int,
    id: Seq<char>,
)
    requires
        0 <= from,
        overdue(idle, from, excess, now, ttl).contains(id),
    ensures
        exists|k: int| 0 <= k < idle.len() && (#[trigger] idle[k]).profile_id == id,
    decreases idle.len() - from,
{
    let all = overdue(idle, from, excess, now, ttl);
    let rest = overdue(idle, from + 1, excess, now, ttl);
    let at = all.index_of(id);
    if from < idle.len() {
        if since(now, idle[from].last_used_unix) >= ttl || from < excess {
            if at == 0 {
                assert(idle[from].profile_id == id);
            } else {
                assert(rest[at - 1] == id);
                lemma_overdue_among(idle, from + 1, excess, now, ttl, id);
            }
        } else {
            lemma_overdue_among(idle, from + 1, excess, now, ttl, id);
        }
    }
}

/// Only backends that were loaded for requests, serve none and are no live session's primary are
/// reclaimed, so a leased primary and a pinned backend never are; and of the backends that run, the
/// one that is asked for is not reclaimed either.
pub proof fn law_reclaimed_is_dispensable(
    state: ManagerView,
    requested: Option<Seq<char>>,
    now: i64,
    id: Seq<char>,
)
    requires
        state.backends.dom().finite(),
        state.reclaimable(requested, now).contains(id),
    ensures
        state.backends.dom().contains(id),
        state.with_live_sessions(now).dispensable(id),
        state.backends[id].residency != BackendResidency::Pinned,
        state.backends[id].lifecycle == BackendLifecycle::Running || state.backends[id].lifecycle
            == BackendLifecycle::Failed,
        state.backends[id].lifecycle == BackendLifecycle::Running ==> Some(id) != requested,
{
    let live = state.with_live_sessions(now);
    let keys = ordered(state.backends.dom());
    crate::table::lemma_ordered(state.backends.dom());
    let ttl = whole_seconds(state.options.auxiliary_idle_ttl);
    let idle = live.idle_by_use(requested);
    let a = overdue(idle, 0, live.excess(requested), now, ttl);
    let primary = |id: Seq<char>| live.idle_primary(requested, now, id);
    let failure = |id: Seq<char>| live.stale_failure(now, id);
    let auxiliary = |id: Seq<char>| live.idle_auxiliary(requested, id);
    let b = kept_where(keys, primary);
    let c = kept_where(keys, failure);
    lemma_kept_where(keys, primary);
    lemma_kept_where(keys, failure);
    lemma_kept_where(keys, auxiliary);
    let at = (a + b + c).index_of(id);
    if at < a.len() {
        assert(a[at] == id);
        assert(a.contains(id));
        lemma_overdue_among(idle, 0, live.excess(requested), now, ttl, id);
        let k = choose|k: int| 0 <= k < idle.len() && (#[trigger] idle[k]).profile_id == id;
        let shown = |id: Seq<char>|
            IdleView { profile_id: id, last_used_unix: live.backends[id].last_used_unix };
        let unsorted = kept_where(keys, auxiliary).map_values(shown);
        assert(idle == sorted(unsorted, order_of::<IdleBackend>()));
        crate::sorting::law_sorted(unsorted, order_of::<IdleBackend>());
        idle.to_multiset_ensures();
        unsorted.to_multiset_ensures();
        assert(idle.contains(idle[k]));
        assert(idle.to_multiset().count(idle[k]) > 0);
        assert(unsorted.contains(idle[k]));
        let j = unsorted.index_of(idle[k]);
        assert(kept_where(keys, auxiliary)[j] == id);
        assert(kept_where(keys, auxiliary).contains(id));
        assert(keys.contains(id));
    } else if at < a.len() + b.len() {
        assert(b[at - a.len()] == id);
        assert(b.contains(id));
        assert(keys.contains(id));
    } else {
        assert(c[at - a.len() - b.len()] == id);
        assert(c.contains(id));
        assert(keys.contains(id));
    }
    assert(keys.to_set().contains(id));
}

/// Whether a backend was loaded for requests, serves none, and is the primary of no session that was
/// heard of within the time that a primary may be idle.
pub open spec fn is_spare(state: ManagerView, now: i64, id: Seq<char>) -> bool {
    &&& state.backends.dom().contains(id)
    &&& state.backends[id].residency == BackendResidency::Jit
    &&& state.backends[id].active_requests == 0
    &&& forall|session: Seq<char>| #[trigger]
        state.sessions.dom().contains(session) && state.sessions[session].primary == Some(id)
            ==> now - state.sessions[session].last_used_unix
            >= state.options.primary_idle_ttl as int / 1000
}

/// Whether a backend is a spare auxiliary one that runs and is not the one asked for.
pub open spec fn is_spare_auxiliary(
    state: ManagerView,
    requested: Option<Seq<char>>,
    now: i64,
    id: Seq<char>,
) -> bool {
    &&& is_spare(state, now, id)
    &&& state.backends[id].profile_role == ModelRole::Auxiliary
    &&& state.backends[id].lifecycle == BackendLifecycle::Running
    &&& requested != Some(id)
}

/// Whether an auxiliary backend was used within the time that one may be idle.
pub open spec fn is_fresh(state: ManagerView, now: i64, id: Seq<char>) -> bool {
    now - state.backends[id].last_used_unix < state.options.auxiliary_idle_ttl as int / 1000
}

proof fn lemma_spare(state: ManagerView, requested: Option<Seq<char>>, now: i64, id: Seq<char>)
    requires
        state.backends.dom().contains(id),
    ensures
        is_spare(state, now, id) == state.with_live_sessions(now).dispensable(id),
        is_spare_auxiliary(state, requested, now, id) == state.with_live_sessions(
            now,
        ).idle_auxiliary(requested, id),
        is_fresh(state, now, id) == (since(now, state.backends[id].last_used_unix) < whole_seconds(
            state.options.auxiliary_idle_ttl,
        )),
{
    let live = state.with_live_sessions(now);
    if live.leased(id) {
        let session = choose|session: Seq<char>| #[trigger]
            live.sessions.dom().contains(session) && live.sessions[session].primary == Some(id);
        assert(state.sessions.dom().contains(session));
    } else {
        assert forall|session: Seq<char>| #[trigger]
            state.sessions.dom().contains(session) && state.sessions[session].primary == Some(
                id,
            ) implies now - state.sessions[session].last_used_unix
            >= state.options.primary_idle_ttl as int / 1000 by {
            assert(!live.sessions.dom().contains(session));
        }
    }
}

/// What is known of the idle auxiliary backends by use: each once, the longest unused first.
proof fn lemma_idle_by_use(live: ManagerView, requested: Option<Seq<char>>)
    requires
        live.backends.dom().finite(),
    ensures
        ({
            let idle = live.idle_by_use(requested);
            &&& forall|k: int|
                0 <= k < idle.len() ==> live.backends.dom().contains(
                    (#[trigger] idle[k]).profile_id,
                ) && live.idle_auxiliary(requested, idle[k].profile_id) && idle[k].last_used_unix
                    == live.backends[idle[k].profile_id].last_used_unix
            &&& forall|id: Seq<char>|
                live.backends.dom().contains(id) && #[trigger] live.idle_auxiliary(requested, id)
                    ==> exists|k: int| 0 <= k < idle.len() && (#[trigger] idle[k]).profile_id == id
            &&& forall|i: int, j: int|
                0 <= i < j < idle.len() ==> (#[trigger] idle[i]).last_used_unix <= (
                #[trigger] idle[j]).last_used_unix && idle[i].profile_id != idle[j].profile_id
        }),
{
    let keys = ordered(live.backends.dom());
    let test = |id: Seq<char>| live.idle_auxiliary(requested, id);
    let shown = |id: Seq<char>|
        IdleView { profile_id: id, last_used_unix: live.backends[id].last_used_unix };
    let before = order_of::<IdleBackend>();
    let kept = kept_where(keys, test);
    let unsorted = kept.map_values(shown);
    let idle = live.idle_by_use(requested);
    crate::table::lemma_ordered(live.backends.dom());
    lemma_ordered_once(live.backends.dom());
    lemma_kept_where(keys, test);
    lemma_kept_once(keys, test);
    assert(idle == sorted(unsorted, before));
    crate::sorting::law_sorted(unsorted, before);
    assert(crate::sorting::in_order(idle, before));
    idle.to_multiset_ensures();
    unsorted.to_multiset_ensures();
    assert(unsorted.no_duplicates()) by {
        assert forall|i: int, j: int|
            0 <= i < unsorted.len() && 0 <= j < unsorted.len() && i != j implies unsorted[i]
            != unsorted[j] by {
            assert(kept[i] != kept[j]);
        }
    }
    unsorted.lemma_multiset_has_no_duplicates();
    idle.lemma_multiset_has_no_duplicates_conv();
    assert forall|k: int| 0 <= k < idle.len() implies live.backends.dom().contains(
        (#[trigger] idle[k]).profile_id,
    ) && live.idle_auxiliary(requested, idle[k].profile_id) && idle[k].last_used_unix
        == live.backends[idle[k].profile_id].last_used_unix by {
        assert(idle.contains(idle[k]));
        assert(idle.to_multiset().count(idle[k]) > 0);
        assert(unsorted.contains(idle[k]));
        let j = unsorted.index_of(idle[k]);
        assert(kept.contains(kept[j]));
        assert(keys.contains(kept[j]));
    }
    assert forall|id: Seq<char>|
        live.backends.dom().contains(id) && #[trigger] live.idle_auxiliary(
            requested,
            id,
        ) implies exists|k: int| 0 <= k < idle.len() && (#[trigger] idle[k]).profile_id == id by {
        assert(keys.contains(id) && test(id));
        assert(kept.contains(id));
        let j = kept.index_of(id);
        assert(unsorted[j] == shown(id));
        assert(unsorted.contains(unsorted[j]));
        assert(unsorted.to_multiset().count(unsorted[j]) > 0);
        assert(idle.contains(unsorted[j]));
        let k = idle.index_of(unsorted[j]);
        assert(idle[k].profile_id == id);
    }
    assert forall|i: int, j: int| 0 <= i < j < idle.len() implies (
    #[trigger] idle[i]).last_used_unix <= (#[trigger] idle[j]).last_used_unix
        && idle[i].profile_id != idle[j].profile_id by {
        assert(!before(idle[j], idle[i]));
        assert(idle[i] != idle[j]);
    }
}

proof fn lemma_overdue_is(
    idle: Seq<IdleView>,
    from: int,
    excess: int,
    now: i64,
    ttl: int,
    id: Seq<char>,
)
    requires
        0 <= from <= idle.len(),
    ensures
        overdue(idle, from, excess, now, ttl).contains(id) <==> exists|k: int|
            from <= k < idle.len() && (#[trigger] idle[k]).profile_id == id && (since(
                now,
                idle[k].last_used_unix,
            ) >= ttl || k < excess),
    decreases idle.len() - from,
{
    let all = overdue(idle, from, excess, now, ttl);
    if from < idle.len() {
        lemma_overdue_is(idle, from + 1, excess, now, ttl, id);
        let rest = overdue(idle, from + 1, excess, now, ttl);
        if since(now, idle[from].last_used_unix) >= ttl || from < excess {
            if rest.contains(id) {
                assert(all[rest.index_of(id) + 1] == id);
            }
            assert(all[0] == idle[from].profile_id);
            if all.contains(id) && all.index_of(id) > 0 {
                assert(rest[all.index_of(id) - 1] == id);
            }
        }
    } else {
        assert(!all.contains(id));
    }
}

/// What stands in a list of backends to stop, by the kind of the backend.
proof fn lemma_reclaimable(
    state: ManagerView,
    requested: Option<Seq<char>>,
    now: i64,
    id: Seq<char>,
)
    requires
        state.backends.dom().finite(),
        state.backends.dom().contains(id),
    ensures
        ({
            let live = state.with_live_sessions(now);
            let idle = live.idle_by_use(requested);
            let ttl = whole_seconds(state.options.auxiliary_idle_ttl);
            state.reclaimable(requested, now).contains(id) <==> overdue(
                idle,
                0,
                live.excess(requested),
                now,
                ttl,
            ).contains(id) || live.idle_primary(requested, now, id) || live.stale_failure(now, id)
        }),
{
    let live = state.with_live_sessions(now);
    let keys = ordered(state.backends.dom());
    crate::table::lemma_ordered(state.backends.dom());
    let ttl = whole_seconds(state.options.auxiliary_idle_ttl);
    let a = overdue(live.idle_by_use(requested), 0, live.excess(requested), now, ttl);
    let primary = |id: Seq<char>| live.idle_primary(requested, now, id);
    let failure = |id: Seq<char>| live.stale_failure(now, id);
    let b = kept_where(keys, primary);
    let c = kept_where(keys, failure);
    lemma_kept_where(keys, primary);
    lemma_kept_where(keys, failure);
    let all = a + b + c;
    assert(keys.contains(id));
    if a.contains(id) {
        assert(all[a.index_of(id)] == id);
    }
    if b.contains(id) {
        assert(all[a.len() + b.index_of(id)] == id);
    }
    if c.contains(id) {
        assert(all[a.len() + b.len() + c.index_of(id)] == id);
    }
    if all.contains(id) {
        let at = all.index_of(id);
        if at < a.len() {
            assert(a[at] == id);
        } else if at < a.len() + b.len() {
            assert(b[at - a.len()] == id);
        } else {
            assert(c[at - a.len() - b.len()] == id);
        }
    }
    assert(b.contains(id) == live.idle_primary(requested, now, id));
    assert(c.contains(id) == live.stale_failure(now, id));
}

proof fn lemma_reclaimed_auxiliary(
    state: ManagerView,
    requested: Option<Seq<char>>,
    now: i64,
    id: Seq<char>,
)
    requires
        state.backends.dom().finite(),
        is_spare_auxiliary(state, requested, now, id),
    ensures
        ({
            let live = state.with_live_sessions(now);
            let idle = live.idle_by_use(requested);
            state.reclaimable(requested, now).contains(id) <==> exists|k: int|
                0 <= k < idle.len() && (#[trigger] idle[k]).profile_id == id && (!is_fresh(
                    state,
                    now,
                    id,
                ) || k < live.excess(requested))
        }),
{
    let live = state.with_live_sessions(now);
    let idle = live.idle_by_use(requested);
    let ttl = whole_seconds(state.options.auxiliary_idle_ttl);
    lemma_spare(state, requested, now, id);
    lemma_idle_by_use(live, requested);
    lemma_reclaimable(state, requested, now, id);
    lemma_overdue_is(idle, 0, live.excess(requested), now, ttl, id);
}

/// An auxiliary backend that nobody needs is stopped where it was not used for the time that one may
/// be idle; and where one is stopped sooner because there are too many, so is each that was used
/// before it.
pub proof fn law_longest_unused_are_reclaimed_first(
    state: ManagerView,
    requested: Option<Seq<char>>,
    now: i64,
    id: Seq<char>,
    earlier: Seq<char>,
)
    requires
        state.backends.dom().finite(),
        is_spare_auxiliary(state, requested, now, id),
        is_spare_auxiliary(state, requested, now, earlier),
    ensures
        now - state.backends[id].last_used_unix >= state.options.auxiliary_idle_ttl as int / 1000
            ==> state.reclaimable(requested, now).contains(id),
        state.reclaimable(requested, now).contains(id) && now - state.backends[id].last_used_unix
            < state.options.auxiliary_idle_ttl as int / 1000
            && state.backends[earlier].last_used_unix < state.backends[id].last_used_unix
            ==> state.reclaimable(requested, now).contains(earlier),
{
    let live = state.with_live_sessions(now);
    let idle = live.idle_by_use(requested);
    lemma_spare(state, requested, now, id);
    lemma_spare(state, requested, now, earlier);
    lemma_idle_by_use(live, requested);
    lemma_reclaimed_auxiliary(state, requested, now, id);
    lemma_reclaimed_auxiliary(state, requested, now, earlier);
    let k = choose|k: int| 0 <= k < idle.len() && (#[trigger] idle[k]).profile_id == id;
    let j = choose|j: int| 0 <= j < idle.len() && (#[trigger] idle[j]).profile_id == earlier;
    assert(idle[k].profile_id == id && idle[j].profile_id == earlier);
    if state.backends[earlier].last_used_unix < state.backends[id].last_used_unix {
        assert(j < k) by {
            if k < j {
                assert(idle[k].last_used_unix <= idle[j].last_used_unix);
            }
        }
        if state.reclaimable(requested, now).contains(id) && is_fresh(state, now, id) {
            let m = choose|m: int|
                0 <= m < idle.len() && (#[trigger] idle[m]).profile_id == id && (!is_fresh(
                    state,
                    now,
                    id,
                ) || m < live.excess(requested));
            assert(m == k) by {
                if m < k {
                    assert(idle[m].profile_id != idle[k].profile_id);
                } else if k < m {
                    assert(idle[k].profile_id != idle[m].profile_id);
                }
            }
            assert(j < live.excess(requested));
        }
    }
}

/// The spare auxiliary backends.
pub open spec fn spare_auxiliaries(
    state: ManagerView,
    requested: Option<Seq<char>>,
    now: i64,
) -> Set<Seq<char>> {
    state.backends.dom().filter(|id: Seq<char>| is_spare_auxiliary(state, requested, now, id))
}

/// No more spare auxiliary backends stay than may be idle, the one asked for counted in; and of those
/// used recently no more are stopped than are too many.
pub proof fn law_no_more_idle_than_allowed(
    state: ManagerView,
    requested: Option<Seq<char>>,
    now: i64,
)
    requires
        state.backends.dom().finite(),
        state.backends.dom().len() < usize::MAX,
    ensures
        ({
            let spare = spare_auxiliaries(state, requested, now);
            let stopped = state.reclaimable(requested, now);
            let kept = spare.filter(|id: Seq<char>| !stopped.contains(id));
            let hurried = spare.filter(
                |id: Seq<char>| stopped.contains(id) && is_fresh(state, now, id),
            );
            let asked: nat = if requested is Some {
                1
            } else {
                0
            };
            let allowed = state.options.max_idle_auxiliary_backends as nat;
            &&& kept.len() == 0 || kept.len() + asked <= allowed
            &&& hurried.len() == 0 || hurried.len() + allowed <= spare.len() + asked
        }),
{
    broadcast use vstd::seq_lib::seq_to_set_is_finite;

    let live = state.with_live_sessions(now);
    let idle = live.idle_by_use(requested);
    let ids = idle.map_values(|one: IdleView| one.profile_id);
    let spare = spare_auxiliaries(state, requested, now);
    let stopped = state.reclaimable(requested, now);
    let kept = spare.filter(|id: Seq<char>| !stopped.contains(id));
    let hurried = spare.filter(|id: Seq<char>| stopped.contains(id) && is_fresh(state, now, id));
    let excess = live.excess(requested);
    lemma_idle_by_use(live, requested);
    assert forall|id: Seq<char>| state.backends.dom().contains(id) implies #[trigger] is_spare_auxiliary(
        state,
        requested,
        now,
        id,
    ) == live.idle_auxiliary(requested, id) by {
        lemma_spare(state, requested, now, id);
    }
    assert(ids.no_duplicates());
    ids.unique_seq_to_set();
    assert(spare =~= ids.to_set()) by {
        assert forall|id: Seq<char>| spare.contains(id) implies ids.to_set().contains(id) by {
            assert(live.idle_auxiliary(requested, id));
            let k = choose|k: int| 0 <= k < idle.len() && (#[trigger] idle[k]).profile_id == id;
            assert(ids[k] == id);
        }
        assert forall|id: Seq<char>| ids.to_set().contains(id) implies spare.contains(id) by {
            let k = ids.index_of(id);
            assert(idle[k].profile_id == id);
            assert(is_spare_auxiliary(state, requested, now, id));
        }
    }
    vstd::set_lib::lemma_len_subset(spare, state.backends.dom());
    let first = ids.take(if excess <= ids.len() {
        excess
    } else {
        ids.len() as int
    });
    let last = ids.skip(if excess <= ids.len() {
        excess
    } else {
        ids.len() as int
    });
    first.lemma_cardinality_of_set();
    last.lemma_cardinality_of_set();
    assert forall|id: Seq<char>| hurried.contains(id) implies first.to_set().contains(id) by {
        lemma_reclaimed_auxiliary(state, requested, now, id);
        let k = choose|k: int|
            0 <= k < idle.len() && (#[trigger] idle[k]).profile_id == id && (!is_fresh(
                state,
                now,
                id,
            ) || k < excess);
        assert(first[k] == id);
    }
    assert forall|id: Seq<char>| kept.contains(id) implies last.to_set().contains(id) by {
        lemma_reclaimed_auxiliary(state, requested, now, id);
        assert(live.idle_auxiliary(requested, id));
        let k = choose|k: int| 0 <= k < idle.len() && (#[trigger] idle[k]).profile_id == id;
        assert(k >= excess);
        assert(last[k - excess] == id);
    }
    assert(hurried.subset_of(first.to_set()));
    assert(kept.subset_of(last.to_set()));
    vstd::set_lib::lemma_len_subset(hurried, first.to_set());
    vstd::set_lib::lemma_len_subset(kept, last.to_set());
}

/// A spare primary backend that runs and is not asked for is stopped exactly where it was not used for
/// the time that a primary may be idle; a spare one that failed is stopped exactly where it was not
/// used for the time that its role may be idle. Nothing but spare backends is stopped.
pub proof fn law_reclaimed_primaries_and_failures(
    state: ManagerView,
    requested: Option<Seq<char>>,
    now: i64,
    id: Seq<char>,
)
    requires
        state.backends.dom().finite(),
        state.backends.dom().contains(id),
    ensures
        state.reclaimable(requested, now).contains(id) ==> is_spare(state, now, id),
        is_spare(state, now, id) && state.backends[id].profile_role == ModelRole::Primary
            && state.backends[id].lifecycle == BackendLifecycle::Running ==> (state.reclaimable(
            requested,
            now,
        ).contains(id) <==> requested != Some(id) && now - state.backends[id].last_used_unix
            >= state.options.primary_idle_ttl as int / 1000),
        is_spare(state, now, id) && state.backends[id].lifecycle == BackendLifecycle::Failed
            && state.backends[id].profile_role == ModelRole::Primary ==> (state.reclaimable(
            requested,
            now,
        ).contains(id) <==> now - state.backends[id].last_used_unix
            >= state.options.primary_idle_ttl as int / 1000),
        is_spare(state, now, id) && state.backends[id].lifecycle == BackendLifecycle::Failed
            && state.backends[id].profile_role == ModelRole::Auxiliary ==> (state.reclaimable(
            requested,
            now,
        ).contains(id) <==> now - state.backends[id].last_used_unix
            >= state.options.auxiliary_idle_ttl as int / 1000),
{
    let live = state.with_live_sessions(now);
    let idle = live.idle_by_use(requested);
    let ttl = whole_seconds(state.options.auxiliary_idle_ttl);
    lemma_spare(state, requested, now, id);
    lemma_idle_by_use(live, requested);
    lemma_reclaimable(state, requested, now, id);
    lemma_overdue_is(idle, 0, live.excess(requested), now, ttl, id);
}

/// A session is forgotten exactly where it was not heard of for the time that a primary may be idle,
/// and the others stay as they are; and nothing else changes.
pub proof fn law_stale_sessions_are_forgotten(state: ManagerView, now: i64, session: Seq<char>)
    ensures
        state.with_live_sessions(now).sessions.dom().contains(session)
            <==> state.sessions.dom().contains(session) && now
            - state.sessions[session].last_used_unix < state.options.primary_idle_ttl as int / 1000,
        state.with_live_sessions(now).sessions.dom().contains(session)
            ==> state.with_live_sessions(now).sessions[session] == state.sessions[session],
        state.with_live_sessions(now) == (ManagerView {
            sessions: state.with_live_sessions(now).sessions,
            ..state
        }),
{
}

} // verus!
