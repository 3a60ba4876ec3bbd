//! What a start comes to as a whole, and what a second one does.

use vstd::prelude::*;

use crate::failure;
use crate::policy;
use crate::policy::{ActionView, AgentStatus, TabStateView};
use crate::policy_laws;
use crate::runtime::{JobView, PhaseView, RequestView, RuntimeView, Tab};
use crate::runtime_laws;
use crate::runtime_laws::Reply;
use crate::store;
use crate::store::{Sessions, StoreView};
use crate::store_laws;

verus! {

/// What Herdr shows of a tab.
pub struct Shown {
    pub label: Seq<char>,
    pub status: AgentStatus,
}

/// Whether Herdr describes a tab as it is.
pub open spec fn describes(tab: Tab, shown: Shown) -> bool {
    tab.label@ == shown.label && tab.agent_status == shown.status
}

/// Whether there is nothing to do about a tab that has a state.
pub open spec fn settled_tab(
    state: TabStateView,
    tabs: Map<Seq<char>, Shown>,
    tab_id: Seq<char>,
) -> bool {
    &&& tabs.contains_key(tab_id)
    &&& policy::decided(Some(state), tabs[tab_id].label, None, tabs[tab_id].status)
        == ActionView::Nothing
}

/// Whether there is nothing to do about any tab of a session that has a state.
pub open spec fn settled(
    sessions: Sessions,
    session: Seq<char>,
    tabs: Map<Seq<char>, Shown>,
) -> bool {
    forall|tab_id: Seq<char>| #[trigger]
        store::tabs_in(sessions, session).contains_key(tab_id) ==> settled_tab(
            store::tabs_in(sessions, session)[tab_id],
            tabs,
            tab_id,
        )
}

/// Whether all jobs that are left bring a tab up to date.
pub open spec fn only_known(runtime: RuntimeView) -> bool {
    forall|i: int| 0 <= i < runtime.jobs.len() ==> #[trigger] runtime.jobs[i] is Known
}

/// Whether a runtime goes through the tabs that have a state, on the states that are stored,
/// and nothing has gone wrong.
pub open spec fn quiet(runtime: RuntimeView, sessions: Sessions) -> bool {
    &&& runtime.first_error is None
    &&& only_known(runtime)
    &&& match runtime.phase {
        PhaseView::Idle => true,
        PhaseView::Opening { job } => job is Survey || job is Known,
        PhaseView::ReadingKnown { tab_id, .. } => {
            &&& runtime.store == Some(StoreView { session: runtime.session, sessions })
            &&& runtime.store->0.get(tab_id) is Some
        },
        _ => false,
    }
}

/// Whether a request does no more than look.
pub open spec fn only_looks(request: RequestView) -> bool {
    request is Open || request is ReadTab || request == RequestView::Finish(Ok(()))
}

/// Whether what a runtime asks for is what it then waits to hear of.
pub open spec fn waits_for(runtime: RuntimeView, request: RequestView) -> bool {
    match runtime.phase {
        PhaseView::Opening { .. } => request is Open,
        PhaseView::ReadingKnown { tab_id, .. } => request == RequestView::ReadTab { tab_id },
        PhaseView::Idle => request is Finish,
        _ => true,
    }
}

/// Whether a reply tells of the states that are stored, or of the tab that was asked for, as
/// they are.
pub open spec fn tells_the_truth(
    runtime: RuntimeView,
    reply: Reply,
    sessions: Sessions,
    tabs: Map<Seq<char>, Shown>,
) -> bool {
    match (runtime.phase, reply) {
        (PhaseView::Opening { .. }, Reply::Opened(Ok(read))) => read == sessions,
        (PhaseView::ReadingKnown { tab_id, .. }, Reply::TabRead(Ok(tab))) => {
            describes(tab, tabs[tab_id])
        },
        _ => false,
    }
}

proof fn lemma_next_job_is_quiet(runtime: RuntimeView, sessions: Sessions)
    requires
        runtime.first_error is None,
        only_known(runtime),
    ensures
        quiet(runtime.next_job().0, sessions),
        only_looks(runtime.next_job().1),
        waits_for(runtime.next_job().0, runtime.next_job().1),
        runtime.next_job().0.session == runtime.session,
{
    if runtime.jobs.len() > 0 {
        assert(runtime.jobs[0] is Known);
        let after = runtime.next_job().0;
        assert forall|i: int| 0 <= i < after.jobs.len() implies #[trigger] after.jobs[i] is Known by {
            assert(after.jobs[i] == runtime.jobs[i + 1]);
        }
    }
}

proof fn lemma_visited_is_quiet(runtime: RuntimeView, sessions: Sessions, ids: Seq<Seq<char>>)
    requires
        runtime.first_error is None,
        only_known(runtime),
        runtime.store == Some(StoreView { session: runtime.session, sessions }),
    ensures
        quiet(runtime.visited(ids).0, sessions),
        only_looks(runtime.visited(ids).1),
        waits_for(runtime.visited(ids).0, runtime.visited(ids).1),
        runtime.visited(ids).0.session == runtime.session,
    decreases ids.len(),
{
    if ids.len() == 0 {
        lemma_next_job_is_quiet(runtime, sessions);
    } else if runtime.store->0.get(ids.first()) is None {
        lemma_visited_is_quiet(runtime, sessions, ids.drop_first());
    }
}

/// Where there is nothing to do about any tab, a runtime that goes through the tabs does no
/// more than look, and so it goes on to the end: no tab is renamed, nothing is written to
/// disk, and nothing goes wrong.
pub proof fn law_settled_tabs_are_only_looked_at(
    runtime: RuntimeView,
    reply: Reply,
    sessions: Sessions,
    tabs: Map<Seq<char>, Shown>,
)
    requires
        settled(sessions, runtime.session, tabs),
        quiet(runtime, sessions),
        tells_the_truth(runtime, reply, sessions, tabs),
    ensures
        ({
            let (after, request) = runtime_laws::resumed(runtime, reply);
            &&& quiet(after, sessions)
            &&& only_looks(request)
            &&& waits_for(after, request)
            &&& after.session == runtime.session
        }),
{
    match (runtime.phase, reply) {
        (PhaseView::Opening { job }, Reply::Opened(Ok(read))) => {
            let store = StoreView { session: runtime.session, sessions };
            let with_store = RuntimeView { store: Some(store), ..runtime };
            match job {
                JobView::Known { tab_id } => {
                    lemma_visited_is_quiet(with_store, sessions, seq![tab_id]);
                },
                JobView::Survey => {
                    lemma_next_job_is_quiet(
                        RuntimeView {
                            jobs: Seq::new(
                                store.tab_ids().len(),
                                |i: int| JobView::Known { tab_id: store.tab_ids()[i] },
                            ) + runtime.jobs,
                            renew: true,
                            ..with_store
                        },
                        sessions,
                    );
                },
                _ => {},
            }
        },
        (PhaseView::ReadingKnown { tab_id, rest }, Reply::TabRead(Ok(tab))) => {
            assert(store::tabs_in(sessions, runtime.session).contains_key(tab_id));
            lemma_visited_is_quiet(runtime, sessions, rest);
        },
        _ => {},
    }
}

/// What there is outside: the states on disk, and the tabs of Herdr.
pub struct World {
    pub disk: Sessions,
    pub tabs: Map<Seq<char>, Shown>,
}

/// The work on an event at one moment: a request was handed out, and is not answered yet.
pub struct Moment {
    pub runtime: RuntimeView,
    pub request: RequestView,
    pub world: World,
}

/// The tabs of Herdr once one of them has a new label.
pub open spec fn relabelled(
    tabs: Map<Seq<char>, Shown>,
    tab_id: Seq<char>,
    to: Seq<char>,
) -> Map<Seq<char>, Shown> {
    tabs.insert(tab_id, Shown { label: to, status: tabs[tab_id].status })
}

/// Whether a reply is the one that a request gets where all goes well. A tab that is not
/// there is not found.
pub open spec fn answered(moment: Moment, reply: Reply) -> bool {
    let world = moment.world;
    match (moment.request, reply) {
        (RequestView::Open { .. }, Reply::Opened(Ok(sessions))) => sessions == world.disk,
        (RequestView::ReadTab { tab_id }, Reply::TabRead(Ok(tab))) => {
            world.tabs.contains_key(tab_id) && describes(tab, world.tabs[tab_id])
        },
        (RequestView::ReadTab { tab_id }, Reply::TabRead(Err(f))) => {
            !world.tabs.contains_key(tab_id) && failure::tab_not_found(f@)
        },
        (RequestView::Flush, Reply::Flushed(Ok(_))) => true,
        (RequestView::Rename { .. }, Reply::Renamed(Ok(_))) => true,
        _ => false,
    }
}

/// What there is outside once a request is carried out. Nothing else changes meanwhile.
pub open spec fn carried_out(moment: Moment) -> World {
    let world = moment.world;
    match moment.request {
        RequestView::Flush => World { disk: moment.runtime.store->0.sessions, ..world },
        RequestView::Rename { tab_id, to } => World {
            tabs: relabelled(world.tabs, tab_id, to),
            ..world
        },
        _ => world,
    }
}

/// Whether a moment comes after another by a given reply. Where the reply tells of a failure
/// that counts, nothing is known of what there is outside.
pub open spec fn follows_by(earlier: Moment, later: Moment, reply: Reply) -> bool {
    &&& runtime_laws::answers(earlier.runtime, reply)
    &&& (later.runtime, later.request) == runtime_laws::resumed(earlier.runtime, reply)
    &&& runtime_laws::counted_failure(earlier.runtime, reply) is None ==> {
        &&& answered(earlier, reply)
        &&& later.world == carried_out(earlier)
    }
}

/// Whether a row of moments is the work at a start, as far as it got.
pub open spec fn startup(runtime: RuntimeView, world: World, moments: Seq<Moment>) -> bool
    decreases moments.len(),
{
    if moments.len() == 0 {
        false
    } else if moments.len() == 1 {
        let (begun, request) = runtime.begun(seq![JobView::Survey]);
        moments[0] == (Moment { runtime: begun, request, world })
    } else {
        &&& startup(runtime, world, moments.drop_last())
        &&& exists|reply: Reply| #[trigger]
            follows_by(moments.drop_last().last(), moments.last(), reply)
    }
}

/// Whether all goes well in a row of moments: no reply tells of a failure that counts.
pub open spec fn all_goes_well(moments: Seq<Moment>) -> bool
    decreases moments.len(),
{
    moments.len() <= 1 || {
        &&& all_goes_well(moments.drop_last())
        &&& exists|reply: Reply| #[trigger]
            follows_by(moments.drop_last().last(), moments.last(), reply)
                && runtime_laws::counted_failure(moments.drop_last().last().runtime, reply) is None
    }
}

/// Whether the state and the label of a tab are what was decided on, without a title, for
/// its status.
spec fn decided_on(state: TabStateView, tabs: Map<Seq<char>, Shown>, tab_id: Seq<char>) -> bool {
    &&& tabs.contains_key(tab_id)
    &&& exists|before: Option<TabStateView>, current: Seq<char>|
        {
            &&& state == #[trigger] policy_laws::next_of(before, current, None)
            &&& tabs[tab_id].label == policy::decorated(
                tabs[tab_id].status,
                policy_laws::base_of(before, current, None),
            )
        }
}

/// Whether the turn of a tab is still to come, or has come.
spec fn awaited(runtime: RuntimeView, tab_id: Seq<char>) -> bool {
    ||| runtime.jobs.contains(JobView::Known { tab_id })
    ||| runtime.phase == (PhaseView::Opening { job: JobView::Known { tab_id } })
    ||| runtime.phase is ReadingKnown && runtime.phase->ReadingKnown_tab_id == tab_id
}

/// The states that a moment works with: those at hand, else those on disk.
spec fn states_at(moment: Moment) -> Sessions {
    match moment.runtime.store {
        Some(store) => store.sessions,
        None => moment.world.disk,
    }
}

/// The tabs of Herdr once the renaming that a moment leads to has taken place.
spec fn tabs_at(moment: Moment) -> Map<Seq<char>, Shown> {
    match (moment.request, moment.runtime.phase) {
        (RequestView::Rename { tab_id, to }, _) => relabelled(moment.world.tabs, tab_id, to),
        (_, PhaseView::Flushing { rename: Some((tab_id, to)), .. }) => relabelled(
            moment.world.tabs,
            tab_id,
            to,
        ),
        _ => moment.world.tabs,
    }
}

/// Whether every tab that has a state is as was decided, or has its turn still to come.
spec fn in_hand(
    runtime: RuntimeView,
    sessions: Sessions,
    tabs: Map<Seq<char>, Shown>,
) -> bool {
    forall|tab_id: Seq<char>| #[trigger]
        store::tabs_in(sessions, runtime.session).contains_key(tab_id) ==> decided_on(
            store::tabs_in(sessions, runtime.session)[tab_id],
            tabs,
            tab_id,
        ) || awaited(runtime, tab_id)
}

/// Whether the work at a start is on its way at a moment, and nothing has gone wrong.
spec fn on_its_way(moment: Moment) -> bool {
    let runtime = moment.runtime;
    let at_hand = Some(StoreView { session: runtime.session, sessions: moment.world.disk });
    &&& runtime.first_error is None
    &&& only_known(runtime)
    &&& store::tabs_in(states_at(moment), runtime.session).dom().finite()
    &&& match runtime.phase {
        PhaseView::Idle => runtime.jobs.len() == 0 && runtime.store is None,
        PhaseView::Opening { job: JobView::Survey } => {
            runtime.jobs.len() == 0 && runtime.store is None
        },
        PhaseView::Opening { job: JobView::Known { .. } } => runtime.store is None,
        PhaseView::ReadingKnown { tab_id, rest } => {
            &&& rest.len() == 0
            &&& moment.request == RequestView::ReadTab { tab_id }
            &&& runtime.store == at_hand
            &&& runtime.store->0.get(tab_id) is Some
        },
        PhaseView::Flushing { rename, rest } => rest.len() == 0 && runtime.store is Some,
        PhaseView::Renaming { rest } => rest.len() == 0 && runtime.store == at_hand,
        _ => false,
    }
    &&& runtime.phase == (PhaseView::Opening { job: JobView::Survey }) || in_hand(
        runtime,
        states_at(moment),
        tabs_at(moment),
    )
}

/// Whether something has gone wrong by a moment.
spec fn gone_wrong(moment: Moment) -> bool {
    match moment.request {
        RequestView::Finish(result) => result is Err,
        _ => moment.runtime.first_error is Some,
    }
}

/// What holds at every moment of a start.
spec fn steady(session: Seq<char>, moment: Moment) -> bool {
    &&& runtime_laws::sound(moment.runtime)
    &&& moment.runtime.awaits(moment.request)
    &&& moment.runtime.session == session
    &&& gone_wrong(moment) || on_its_way(moment)
}

/// Going on to the next job gives the first tab that is left its turn.
proof fn lemma_next_job_is_on_its_way(runtime: RuntimeView, world: World)
    requires
        runtime.first_error is None,
        only_known(runtime),
        store::tabs_in(world.disk, runtime.session).dom().finite(),
        forall|tab_id: Seq<char>| #[trigger]
            store::tabs_in(world.disk, runtime.session).contains_key(tab_id) ==> decided_on(
                store::tabs_in(world.disk, runtime.session)[tab_id],
                world.tabs,
                tab_id,
            ) || runtime.jobs.contains(JobView::Known { tab_id }),
    ensures
        ({
            let (after, request) = runtime.next_job();
            on_its_way(Moment { runtime: after, request, world })
        }),
{
    let (after, request) = runtime.next_job();
    lemma_next_job_is_quiet(runtime, world.disk);
    assert forall|tab_id: Seq<char>| #[trigger]
        store::tabs_in(world.disk, runtime.session).contains_key(tab_id) implies decided_on(
        store::tabs_in(world.disk, runtime.session)[tab_id],
        world.tabs,
        tab_id,
    ) || awaited(after, tab_id) by {
        let job = JobView::Known { tab_id };
        if runtime.jobs.contains(job) {
            let i = choose|i: int| 0 <= i < runtime.jobs.len() && runtime.jobs[i] == job;
            if i > 0 {
                assert(after.jobs[i - 1] == job);
            }
        }
    }
}

/// Once the stored states are read, the work stays on its way.
proof fn lemma_opened_is_on_its_way(earlier: Moment, later: Moment)
    requires
        earlier.runtime.awaits(earlier.request),
        on_its_way(earlier),
        earlier.runtime.phase is Opening,
        later.world == earlier.world,
        (later.runtime, later.request) == earlier.runtime.opened(Ok(earlier.world.disk)),
    ensures
        on_its_way(later),
{
    let runtime = earlier.runtime;
    let world = earlier.world;
    let store = StoreView { session: runtime.session, sessions: world.disk };
    let with_store = RuntimeView { store: Some(store), ..runtime };
    match runtime.phase->job {
        JobView::Survey => {
            let ids = store.tab_ids();
            let found = Seq::new(ids.len(), |i: int| JobView::Known { tab_id: ids[i] });
            let more = RuntimeView { jobs: found + runtime.jobs, renew: true, ..with_store };
            assert forall|tab_id: Seq<char>| #[trigger]
                store::tabs_in(world.disk, runtime.session).contains_key(
                    tab_id,
                ) implies more.jobs.contains(JobView::Known { tab_id }) by {
                store_laws::law_tab_ids_name_the_known_tabs(store, tab_id);
                let i = choose|i: int| 0 <= i < ids.len() && ids[i] == tab_id;
                assert(more.jobs[i] == JobView::Known { tab_id });
            }
            lemma_next_job_is_on_its_way(more, world);
        },
        JobView::Known { tab_id } => {
            if store.get(tab_id) is Some {
                assert(later.runtime.phase->ReadingKnown_rest =~= Seq::<Seq<char>>::empty());
            } else {
                reveal_with_fuel(RuntimeView::visited, 3);
                lemma_next_job_is_on_its_way(with_store, world);
            }
        },
        _ => {},
    }
}

/// Once a tab is read, or is not found, the work stays on its way.
proof fn lemma_tab_read_is_on_its_way(earlier: Moment, later: Moment, reply: Reply)
    requires
        on_its_way(earlier),
        earlier.runtime.phase is ReadingKnown,
        reply is TabRead,
        answered(earlier, reply),
        later.world == earlier.world,
        (later.runtime, later.request) == runtime_laws::resumed(earlier.runtime, reply),
    ensures
        on_its_way(later),
{
    let runtime = earlier.runtime;
    let world = earlier.world;
    let from = runtime.store->0;
    let tab_id = runtime.phase->ReadingKnown_tab_id;
    let rest = runtime.phase->ReadingKnown_rest;
    match reply {
        Reply::TabRead(Ok(tab)) => {
            let known = from.get(tab_id);
            let next = policy_laws::next_of(known, tab.label@, None);
            let base = policy_laws::base_of(known, tab.label@, None);
            let after = from.saved(tab_id, next);
            let to = policy::decorated(tab.agent_status, base);
            let tabs = relabelled(world.tabs, tab_id, to);
            assert(decided_on(next, tabs, tab_id));
            if tab.label@ == to {
                assert(tabs =~= world.tabs);
            }
            if known == Some(next) {
                runtime_laws::lemma_saving_again(from, tab_id, next);
            }
            assert forall|other: Seq<char>| #[trigger]
                store::tabs_in(after.sessions, runtime.session).contains_key(
                    other,
                ) implies decided_on(
                store::tabs_in(after.sessions, runtime.session)[other],
                tabs,
                other,
            ) || runtime.jobs.contains(JobView::Known { tab_id: other }) by {
                if other != tab_id {
                    store_laws::law_saved_tab_reads_back(from, tab_id, next, other);
                    assert(store::tabs_in(world.disk, runtime.session).contains_key(other));
                    lemma_others_stay(
                        store::tabs_in(world.disk, runtime.session)[other],
                        world.tabs,
                        tab_id,
                        to,
                        other,
                    );
                }
            }
            if known == Some(next) && tab.label@ == to {
                lemma_next_job_is_on_its_way(runtime, world);
            }
        },
        Reply::TabRead(Err(f)) => {
            let after = from.removed(tab_id);
            assert forall|other: Seq<char>| #[trigger]
                store::tabs_in(after.sessions, runtime.session).contains_key(
                    other,
                ) implies decided_on(
                store::tabs_in(after.sessions, runtime.session)[other],
                world.tabs,
                other,
            ) || runtime.jobs.contains(JobView::Known { tab_id: other }) by {
                assert(after.get(other) is Some);
                store_laws::law_removed_tab_is_gone(from, tab_id, other);
                assert(store::tabs_in(world.disk, runtime.session).contains_key(other));
            }
        },
        _ => {},
    }
}

/// A new label for one tab leaves the others as they were decided.
proof fn lemma_others_stay(
    state: TabStateView,
    tabs: Map<Seq<char>, Shown>,
    tab_id: Seq<char>,
    to: Seq<char>,
    other: Seq<char>,
)
    requires
        other != tab_id,
    ensures
        decided_on(state, tabs, other) ==> decided_on(state, relabelled(tabs, tab_id, to), other),
{
    let new = relabelled(tabs, tab_id, to);
    if decided_on(state, tabs, other) {
        let (before, current) = choose|before: Option<TabStateView>, current: Seq<char>|
            {
                &&& state == #[trigger] policy_laws::next_of(before, current, None)
                &&& tabs[other].label == policy::decorated(
                    tabs[other].status,
                    policy_laws::base_of(before, current, None),
                )
            };
        assert(new[other] == tabs[other]);
        assert(state == policy_laws::next_of(before, current, None));
    }
}

/// Once the states are on disk, or a tab is renamed, the work stays on its way.
proof fn lemma_carried_out_is_on_its_way(earlier: Moment, later: Moment, reply: Reply)
    requires
        runtime_laws::sound(earlier.runtime),
        earlier.runtime.awaits(earlier.request),
        on_its_way(earlier),
        reply is Flushed || reply is Renamed,
        runtime_laws::answers(earlier.runtime, reply),
        answered(earlier, reply),
        later.world == carried_out(earlier),
        (later.runtime, later.request) == runtime_laws::resumed(earlier.runtime, reply),
    ensures
        on_its_way(later),
{
    let runtime = earlier.runtime;
    if !(later.request is Rename) {
        lemma_next_job_is_on_its_way(runtime, later.world);
    }
}

/// Whatever becomes of a request, the work at a start stays steady.
proof fn lemma_steady_goes_on(session: Seq<char>, earlier: Moment, later: Moment, reply: Reply)
    requires
        steady(session, earlier),
        follows_by(earlier, later, reply),
    ensures
        steady(session, later),
{
    let runtime = earlier.runtime;
    runtime_laws::law_runtime_awaits_its_request(runtime, reply);
    runtime_laws::law_first_failure_is_reported(runtime, reply);
    runtime_laws::lemma_session_stays(runtime, reply);
    if !gone_wrong(earlier) && runtime_laws::counted_failure(runtime, reply) is None {
        match reply {
            Reply::Opened(_) => {
                lemma_opened_is_on_its_way(earlier, later);
            },
            Reply::TabRead(_) => {
                lemma_tab_read_is_on_its_way(earlier, later, reply);
            },
            Reply::Flushed(_) => {
                lemma_carried_out_is_on_its_way(earlier, later, reply);
            },
            Reply::Renamed(_) => {
                lemma_carried_out_is_on_its_way(earlier, later, reply);
            },
            Reply::PaneRead(_) => {},
        }
    }
}

proof fn lemma_startup_is_steady(runtime: RuntimeView, world: World, moments: Seq<Moment>)
    requires
        startup(runtime, world, moments),
        store::tabs_in(world.disk, runtime.session).dom().finite(),
    ensures
        moments.len() > 0,
        steady(runtime.session, moments.last()),
    decreases moments.len(),
{
    if moments.len() == 1 {
        runtime_laws::law_event_begins_without_the_lock(runtime, seq![JobView::Survey]);
        assert(moments[0].runtime.jobs =~= Seq::<JobView>::empty());
    } else {
        let before = moments.drop_last();
        lemma_startup_is_steady(runtime, world, before);
        let reply = choose|reply: Reply| #[trigger]
            follows_by(before.last(), moments.last(), reply);
        lemma_steady_goes_on(runtime.session, before.last(), moments.last(), reply);
    }
}

/// Whether no automatic label is an icon, a space and another automatic label.
pub open spec fn unambiguous(state: TabStateView) -> bool {
    state matches TabStateView::Tracking { labels } ==> forall|a: Seq<char>, b: Seq<char>|
        #[trigger] labels.contains(a) && #[trigger] labels.contains(b) ==> policy::stripped(a)
            != Some(b)
}

/// Whether the icon of every tab of a session that has a state can be told from its base
/// label: no automatic label of the tab reads like its label, icon and all. That is so where
/// none of them is an icon, a space and another one.
pub open spec fn told_apart(
    sessions: Sessions,
    session: Seq<char>,
    tabs: Map<Seq<char>, Shown>,
) -> bool {
    forall|tab_id: Seq<char>| #[trigger]
        store::tabs_in(sessions, session).contains_key(tab_id) ==> {
            let state = store::tabs_in(sessions, session)[tab_id];
            unambiguous(state) || policy_laws::icon_is_seen(state, tabs[tab_id].label, None)
        }
}

/// A start that ends well leaves nothing to do about any tab that has a state.
///
/// Left out are sessions with a tab one of whose automatic labels reads like its label, icon
/// and all: that one is taken for the base label the next time.
pub proof fn law_startup_settles_every_tab(
    runtime: RuntimeView,
    world: World,
    moments: Seq<Moment>,
)
    requires
        startup(runtime, world, moments),
        store::tabs_in(world.disk, runtime.session).dom().finite(),
        moments.last().request == RequestView::Finish(Ok(())),
        told_apart(moments.last().world.disk, runtime.session, moments.last().world.tabs),
    ensures
        settled(moments.last().world.disk, runtime.session, moments.last().world.tabs),
        store::tabs_in(moments.last().world.disk, runtime.session).dom().finite(),
{
    lemma_startup_is_steady(runtime, world, moments);
    let last = moments.last();
    let session = runtime.session;
    assert forall|tab_id: Seq<char>| #[trigger]
        store::tabs_in(last.world.disk, session).contains_key(tab_id) implies settled_tab(
        store::tabs_in(last.world.disk, session)[tab_id],
        last.world.tabs,
        tab_id,
    ) by {
        let state = store::tabs_in(last.world.disk, session)[tab_id];
        let shown = last.world.tabs[tab_id];
        assert(decided_on(state, last.world.tabs, tab_id));
        let (before, current) = choose|before: Option<TabStateView>, current: Seq<char>|
            {
                &&& state == #[trigger] policy_laws::next_of(before, current, None)
                &&& shown.label == policy::decorated(
                    shown.status,
                    policy_laws::base_of(before, current, None),
                )
            };
        let base = policy_laws::base_of(before, current, None);
        if let TabStateView::Tracking { labels } = state {
            policy_laws::lemma_kept_history(before, current, None);
            policy_laws::law_stripping_undoes_decorating(shown.status, base);
            assert(labels.contains(base));
            assert(!labels.contains(shown.label));
        }
        policy_laws::law_status_changes_the_icon_alone(
            before,
            current,
            None,
            shown.status,
            shown.status,
            None,
        );
    }
}

/// How many tabs of a session have a state.
pub open spec fn known_tabs(sessions: Sessions, session: Seq<char>) -> nat {
    (StoreView { session, sessions }).tab_ids().len()
}

/// Where there is nothing to do about any tab, a start does no more than look, at every
/// moment, and leaves all outside as it is. It reads the states, and then the states and the
/// tab for each tab that has a state, and ends well after that.
pub proof fn law_startup_leaves_settled_tabs_alone(
    runtime: RuntimeView,
    world: World,
    moments: Seq<Moment>,
)
    requires
        startup(runtime, world, moments),
        all_goes_well(moments),
        settled(world.disk, runtime.session, world.tabs),
        store::tabs_in(world.disk, runtime.session).dom().finite(),
    ensures
        forall|i: int|
            0 <= i < moments.len() ==> only_looks((#[trigger] moments[i]).request)
                && moments[i].world == world,
        moments.len() <= 2 * known_tabs(world.disk, runtime.session) + 2,
        moments.last().request is Finish <==> moments.len() == 2 * known_tabs(
            world.disk,
            runtime.session,
        ) + 2,
{
    lemma_settled_startup_is_quiet(runtime, world, moments);
}

/// Whether all jobs that are left are on tabs that have a state.
spec fn jobs_are_known(runtime: RuntimeView, sessions: Sessions) -> bool {
    forall|i: int|
        0 <= i < runtime.jobs.len() ==> (#[trigger] runtime.jobs[i] matches JobView::Known {
            tab_id,
        } && store::looked_up(sessions, runtime.session, tab_id) is Some)
}

/// Where a quiet runtime is after so many replies.
spec fn has_come_to(runtime: RuntimeView, sessions: Sessions, replies: nat) -> bool {
    let tabs = known_tabs(sessions, runtime.session);
    &&& jobs_are_known(runtime, sessions)
    &&& match runtime.phase {
        PhaseView::Opening { job: JobView::Survey } => runtime.jobs.len() == 0 && replies == 0,
        PhaseView::Opening { job: JobView::Known { tab_id } } => {
            &&& store::looked_up(sessions, runtime.session, tab_id) is Some
            &&& 2 * runtime.jobs.len() + replies + 1 == 2 * tabs
        },
        PhaseView::ReadingKnown { rest, .. } => {
            rest.len() == 0 && 2 * runtime.jobs.len() + replies == 2 * tabs
        },
        PhaseView::Idle => runtime.jobs.len() == 0 && replies == 2 * tabs + 1,
        _ => false,
    }
}

proof fn lemma_next_job_comes_to(runtime: RuntimeView, sessions: Sessions, replies: nat)
    requires
        jobs_are_known(runtime, sessions),
        2 * runtime.jobs.len() + replies == 2 * known_tabs(sessions, runtime.session) + 1,
    ensures
        has_come_to(runtime.next_job().0, sessions, replies),
{
    if runtime.jobs.len() > 0 {
        let after = runtime.next_job().0;
        assert(runtime.jobs[0] is Known);
        assert forall|i: int| 0 <= i < after.jobs.len() implies (
        #[trigger] after.jobs[i] matches JobView::Known { tab_id } && store::looked_up(
            sessions,
            runtime.session,
            tab_id,
        ) is Some) by {
            assert(after.jobs[i] == runtime.jobs[i + 1]);
        }
    }
}

/// Every reply brings a quiet runtime one place further.
proof fn lemma_quiet_step_comes_to(
    runtime: RuntimeView,
    reply: Reply,
    sessions: Sessions,
    tabs: Map<Seq<char>, Shown>,
    replies: nat,
)
    requires
        settled(sessions, runtime.session, tabs),
        store::tabs_in(sessions, runtime.session).dom().finite(),
        quiet(runtime, sessions),
        tells_the_truth(runtime, reply, sessions, tabs),
        has_come_to(runtime, sessions, replies),
    ensures
        has_come_to(runtime_laws::resumed(runtime, reply).0, sessions, replies + 1),
{
    let store = StoreView { session: runtime.session, sessions };
    let with_store = RuntimeView { store: Some(store), ..runtime };
    match (runtime.phase, reply) {
        (PhaseView::Opening { job: JobView::Survey }, Reply::Opened(Ok(read))) => {
            let ids = store.tab_ids();
            let found = Seq::new(ids.len(), |i: int| JobView::Known { tab_id: ids[i] });
            let more = RuntimeView { jobs: found + runtime.jobs, renew: true, ..with_store };
            assert forall|i: int| 0 <= i < more.jobs.len() implies (
            #[trigger] more.jobs[i] matches JobView::Known { tab_id } && store::looked_up(
                sessions,
                runtime.session,
                tab_id,
            ) is Some) by {
                assert(ids.contains(ids[i]));
                store_laws::law_tab_ids_name_the_known_tabs(store, ids[i]);
            }
            lemma_next_job_comes_to(more, sessions, replies + 1);
        },
        (PhaseView::Opening { job: JobView::Known { tab_id } }, Reply::Opened(Ok(read))) => {
            let after = runtime_laws::resumed(runtime, reply).0;
            assert(after.phase->ReadingKnown_rest =~= Seq::<Seq<char>>::empty());
        },
        (PhaseView::ReadingKnown { tab_id, rest }, Reply::TabRead(Ok(tab))) => {
            assert(store::tabs_in(sessions, runtime.session).contains_key(tab_id));
            lemma_next_job_comes_to(runtime, sessions, replies + 1);
        },
        _ => {},
    }
}

proof fn lemma_settled_startup_is_quiet(runtime: RuntimeView, world: World, moments: Seq<Moment>)
    requires
        startup(runtime, world, moments),
        all_goes_well(moments),
        settled(world.disk, runtime.session, world.tabs),
        store::tabs_in(world.disk, runtime.session).dom().finite(),
    ensures
        moments.len() > 0,
        forall|i: int|
            0 <= i < moments.len() ==> only_looks((#[trigger] moments[i]).request)
                && moments[i].world == world,
        moments.last().runtime.session == runtime.session,
        quiet(moments.last().runtime, world.disk),
        waits_for(moments.last().runtime, moments.last().request),
        has_come_to(moments.last().runtime, world.disk, (moments.len() - 1) as nat),
    decreases moments.len(),
{
    if moments.len() == 1 {
        assert(moments[0].runtime.jobs =~= Seq::<JobView>::empty());
    } else {
        let before = moments.drop_last();
        lemma_settled_startup_is_quiet(runtime, world, before);
        let earlier = before.last();
        let reply = choose|reply: Reply| #[trigger]
            follows_by(earlier, moments.last(), reply) && runtime_laws::counted_failure(
                earlier.runtime,
                reply,
            ) is None;
        assert(earlier.world == world) by {
            assert(before[before.len() - 1].world == world);
        }
        if let PhaseView::ReadingKnown { tab_id, .. } = earlier.runtime.phase {
            assert(store::tabs_in(world.disk, runtime.session).contains_key(tab_id));
        }
        law_settled_tabs_are_only_looked_at(earlier.runtime, reply, world.disk, world.tabs);
        lemma_quiet_step_comes_to(
            earlier.runtime,
            reply,
            world.disk,
            world.tabs,
            (before.len() - 1) as nat,
        );
        assert forall|i: int| 0 <= i < moments.len() implies only_looks(
            (#[trigger] moments[i]).request,
        ) && moments[i].world == world by {
            if i < before.len() {
                assert(moments[i] == before[i]);
            }
        }
    }
}

/// A second start changes nothing: after a start that ended well, and with nothing changed
/// since, it renames no tab, writes nothing to disk, and leaves all outside as it is. It ends
/// well once it has looked at each tab that has a state.
///
/// Left out are sessions with a tab one of whose automatic labels reads like its label, icon
/// and all.
pub proof fn law_second_startup_changes_nothing(
    runtime: RuntimeView,
    world: World,
    first: Seq<Moment>,
    later: RuntimeView,
    second: Seq<Moment>,
)
    requires
        startup(runtime, world, first),
        store::tabs_in(world.disk, runtime.session).dom().finite(),
        first.last().request == RequestView::Finish(Ok(())),
        told_apart(first.last().world.disk, runtime.session, first.last().world.tabs),
        later.session == runtime.session,
        startup(later, first.last().world, second),
        all_goes_well(second),
    ensures
        forall|i: int|
            0 <= i < second.len() ==> only_looks((#[trigger] second[i]).request)
                && second[i].world == first.last().world,
        second.last().request is Finish <==> second.len() == 2 * known_tabs(
            first.last().world.disk,
            runtime.session,
        ) + 2,
{
    law_startup_settles_every_tab(runtime, world, first);
    law_startup_leaves_settled_tabs_alone(later, first.last().world, second);
}

} // verus!
