//! What the events lead to, from their beginning to their end.

use vstd::prelude::*;

use crate::failure;
use crate::failure::Failure;
use crate::policy;
use crate::policy::{ActionView, TabStateView};
use crate::policy_laws;
use crate::runtime;
use crate::runtime::{
    EventData, EventPane, EventTab, JobView, Pane, PhaseView, RequestView, RuntimeView, Step, Tab,
};
use crate::runtime_laws;
use crate::runtime_laws::Reply;
use crate::store;
use crate::store::{Sessions, StoreView};
use crate::store_laws;
use crate::text;

verus! {

/// A step that leaves the jobs as they are, goes on to the first of them, or ends because
/// there are none.
pub open spec fn in_turn(before: RuntimeView, step: Step) -> bool {
    let (after, request) = step;
    if request is Open {
        &&& before.jobs.len() > 0
        &&& after.jobs == before.jobs.drop_first()
        &&& after.phase == PhaseView::Opening { job: before.jobs.first() }
        &&& request == RequestView::Open { renew_deadline: before.renew }
        &&& after.renew == before.renew
    } else if request is Finish {
        before.jobs.len() == 0
    } else {
        &&& after.jobs == before.jobs
        &&& after.renew == before.renew
    }
}

proof fn lemma_visited_in_turn(runtime: RuntimeView, ids: Seq<Seq<char>>)
    ensures
        in_turn(runtime, runtime.visited(ids)),
    decreases ids.len(),
{
    if ids.len() > 0 && runtime.store->0.get(ids.first()) is None {
        lemma_visited_in_turn(runtime, ids.drop_first());
    }
}

proof fn lemma_stored_in_turn(
    runtime: RuntimeView,
    store: StoreView,
    changed: bool,
    rename: Option<(Seq<char>, Seq<char>)>,
    rest: Seq<Seq<char>>,
)
    ensures
        in_turn(runtime, runtime.stored(store, changed, rename, rest)),
{
    lemma_visited_in_turn(RuntimeView { store: Some(store), ..runtime }, rest);
}

proof fn lemma_applied_in_turn(
    runtime: RuntimeView,
    tab_id: Seq<char>,
    tab: Tab,
    title: Option<Seq<char>>,
    rest: Seq<Seq<char>>,
)
    ensures
        in_turn(runtime, runtime.applied(tab_id, tab, title, rest)),
{
    let store = runtime.store->0;
    match policy::decided(store.get(tab_id), tab.label@, title, tab.agent_status) {
        ActionView::Nothing => {
            lemma_visited_in_turn(runtime, rest);
        },
        ActionView::Save(state) => {
            lemma_stored_in_turn(
                runtime,
                store.saved(tab_id, state),
                store.get(tab_id) != Some(state),
                None,
                rest,
            );
        },
        ActionView::Rename { to, state } => {
            lemma_stored_in_turn(
                runtime,
                store.saved(tab_id, state),
                store.get(tab_id) != Some(state),
                Some((tab_id, to)),
                rest,
            );
        },
    }
}

/// The jobs of an event are taken in turn, and none is passed over, whatever goes wrong in
/// the ones before it. Finding the tabs, which adds jobs, is another matter.
pub proof fn law_jobs_are_taken_in_turn(runtime: RuntimeView, reply: Reply)
    requires
        runtime_laws::answers(runtime, reply),
        runtime.phase != (PhaseView::Opening { job: JobView::Survey }),
    ensures
        in_turn(runtime, runtime_laws::resumed(runtime, reply)),
{
    let none = Seq::<Seq<char>>::empty();
    match reply {
        Reply::Opened(Ok(sessions)) => {
            let with_store = RuntimeView {
                store: Some(StoreView { session: runtime.session, sessions }),
                ..runtime
            };
            let store = with_store.store->0;
            match runtime.phase->job {
                JobView::Known { tab_id } => {
                    lemma_visited_in_turn(with_store, seq![tab_id]);
                },
                JobView::Workspace { workspace_id } => {
                    lemma_visited_in_turn(with_store, store.tab_ids_in_workspace(workspace_id));
                },
                JobView::CloseTab { tab_id } => {
                    lemma_stored_in_turn(
                        with_store,
                        store.removed(tab_id),
                        store.get(tab_id) is Some,
                        None,
                        none,
                    );
                },
                JobView::CloseWorkspace { workspace_id } => {
                    lemma_stored_in_turn(
                        with_store,
                        store.workspace_removed(workspace_id),
                        store::has_workspace(store.sessions, store.session, workspace_id),
                        None,
                        none,
                    );
                },
                _ => {},
            }
        },
        Reply::TabRead(result) => {
            let store = runtime.store->0;
            match (runtime.phase, result) {
                (PhaseView::ReadingPaneTab { tab_id, title }, Ok(tab)) => {
                    let counted = if tab.pane_count == 1 {
                        title
                    } else {
                        None
                    };
                    lemma_applied_in_turn(runtime, tab_id, tab, counted, none);
                },
                (PhaseView::ReadingKnown { tab_id, rest }, Ok(tab)) => {
                    lemma_applied_in_turn(runtime, tab_id, tab, None, rest);
                },
                (PhaseView::ReadingKnown { tab_id, rest }, Err(f)) => {
                    lemma_stored_in_turn(
                        runtime,
                        store.removed(tab_id),
                        store.get(tab_id) is Some,
                        None,
                        rest,
                    );
                    lemma_visited_in_turn(runtime.noted(Err(f@)), rest);
                },
                (PhaseView::ReadingCreated { tab_id, label }, Ok(tab)) => {
                    lemma_stored_in_turn(
                        runtime,
                        store.removed(tab_id),
                        store.get(tab_id) is Some,
                        None,
                        none,
                    );
                },
                _ => {},
            }
        },
        Reply::Flushed(result) => {
            lemma_visited_in_turn(runtime, runtime.phase->Flushing_rest);
            lemma_visited_in_turn(runtime.noted(result), runtime.phase->Flushing_rest);
        },
        Reply::Renamed(result) => {
            lemma_visited_in_turn(runtime.noted(result), runtime.phase->Renaming_rest);
        },
        _ => {},
    }
}

/// The tabs that follow within the job that a runtime works on.
pub open spec fn row_left(phase: PhaseView) -> Seq<Seq<char>> {
    match phase {
        PhaseView::ReadingKnown { rest, .. } => rest,
        PhaseView::Flushing { rest, .. } => rest,
        PhaseView::Renaming { rest } => rest,
        _ => Seq::empty(),
    }
}

/// A runtime once the failure that a reply tells of, as far as it counts, is noted.
pub open spec fn with_failure(runtime: RuntimeView, reply: Reply) -> RuntimeView {
    match runtime_laws::counted_failure(runtime, reply) {
        Some(f) => runtime.noted(Err(f)),
        None => runtime,
    }
}

/// The tabs of a job are taken in turn, and none that has a state is passed over, whatever
/// goes wrong with the ones before it: while a tab is stored and renamed the others wait, and
/// after that comes the first of them that has a state.
pub proof fn law_tabs_are_taken_in_turn(runtime: RuntimeView, reply: Reply)
    requires
        runtime.valid(),
        runtime_laws::answers(runtime, reply),
        runtime.phase is ReadingKnown || runtime.phase is Flushing || runtime.phase is Renaming,
    ensures
        ({
            let step = runtime_laws::resumed(runtime, reply);
            let rest = row_left(runtime.phase);
            if step.1 is Flush || step.1 is Rename {
                row_left(step.0.phase) == rest && step.0.first_error == runtime.first_error
            } else {
                step == with_failure(runtime, reply).visited(rest)
            }
        }),
{
    if let (PhaseView::ReadingKnown { tab_id, .. }, Reply::TabRead(result)) = (
        runtime.phase,
        reply,
    ) {
        let from = runtime.store->0;
        match result {
            Ok(tab) => {
                let next = policy_laws::next_of(from.get(tab_id), tab.label@, None);
                if from.get(tab_id) == Some(next) {
                    runtime_laws::lemma_saving_again(from, tab_id, next);
                    assert(RuntimeView { store: Some(from.saved(tab_id, next)), ..runtime }
                        == runtime);
                }
            },
            Err(_) => {
                if from.get(tab_id) is None {
                    assert(RuntimeView { store: Some(from.removed(tab_id)), ..runtime }
                        == runtime);
                }
            },
        }
    }
    let rest = row_left(runtime.phase);
    lemma_visited_only_asks(runtime, rest);
    lemma_visited_only_asks(with_failure(runtime, reply), rest);
}

proof fn lemma_visited_only_asks(runtime: RuntimeView, ids: Seq<Seq<char>>)
    ensures
        !(runtime.visited(ids).1 is Flush),
        !(runtime.visited(ids).1 is Rename),
    decreases ids.len(),
{
    if ids.len() > 0 && runtime.store->0.get(ids.first()) is None {
        lemma_visited_only_asks(runtime, ids.drop_first());
    }
}

/// Whether a tab is asked for, or has its turn still to come and the state that it had.
pub open spec fn asked_or_to_come(step: Step, tab: Seq<char>, state: TabStateView) -> bool {
    let (after, request) = step;
    ||| request == RequestView::ReadTab { tab_id: tab }
    ||| {
        &&& row_left(after.phase).contains(tab)
        &&& after.store is Some
        &&& after.store->0.get(tab) == Some(state)
        &&& after.phase matches PhaseView::ReadingKnown { tab_id, .. } ==> tab_id != tab
    }
}

proof fn lemma_visited_asks_or_keeps(
    runtime: RuntimeView,
    ids: Seq<Seq<char>>,
    tab: Seq<char>,
)
    requires
        runtime.store is Some,
        ids.contains(tab),
        runtime.store->0.get(tab) is Some,
    ensures
        asked_or_to_come(runtime.visited(ids), tab, runtime.store->0.get(tab)->0),
    decreases ids.len(),
{
    if ids.first() != tab {
        let i = choose|i: int| 0 <= i < ids.len() && ids[i] == tab;
        assert(ids.drop_first()[i - 1] == tab);
        if runtime.store->0.get(ids.first()) is None {
            lemma_visited_asks_or_keeps(runtime, ids.drop_first(), tab);
        }
    }
}

/// A tab that has a state, and whose turn is still to come, keeps both its state and its turn
/// until it is asked for, whatever becomes of the tabs before it.
pub proof fn law_every_tab_gets_its_turn(runtime: RuntimeView, reply: Reply, tab: Seq<char>)
    requires
        runtime.valid(),
        runtime_laws::answers(runtime, reply),
        row_left(runtime.phase).contains(tab),
        runtime.store->0.get(tab) is Some,
        runtime.phase matches PhaseView::ReadingKnown { tab_id, .. } ==> tab_id != tab,
    ensures
        asked_or_to_come(
            runtime_laws::resumed(runtime, reply),
            tab,
            runtime.store->0.get(tab)->0,
        ),
{
    let from = runtime.store->0;
    let rest = row_left(runtime.phase);
    law_tabs_are_taken_in_turn(runtime, reply);
    lemma_visited_asks_or_keeps(with_failure(runtime, reply), rest, tab);
    if let (PhaseView::ReadingKnown { tab_id, .. }, Reply::TabRead(result)) = (
        runtime.phase,
        reply,
    ) {
        store_laws::law_removed_tab_is_gone(from, tab_id, tab);
        if let Ok(read) = result {
            let next = policy_laws::next_of(from.get(tab_id), read.label@, None);
            store_laws::law_saved_tab_reads_back(from, tab_id, next, tab);
        }
    }
}

/// A pane that moves between two tabs has the tab that it is in now brought up to date
/// first, and then, in what is left of the same time, the tab that it was in.
pub proof fn law_destination_comes_before_source(
    runtime: RuntimeView,
    previous_tab_id: String,
    pane: EventPane,
)
    requires
        previous_tab_id@ != pane.tab_id@,
    ensures
        ({
            let event = EventData::PaneMoved { previous_tab_id, pane };
            let (after, request) = runtime.begun(runtime::jobs_of(event));
            &&& request == RequestView::Open { renew_deadline: true }
            &&& after.phase == PhaseView::Opening {
                job: JobView::Pane { pane_id: pane.pane_id@ },
            }
            &&& after.jobs == seq![JobView::Known { tab_id: previous_tab_id@ }]
            &&& !after.renew
        }),
{
    let event = EventData::PaneMoved { previous_tab_id, pane };
    let (after, request) = runtime.begun(runtime::jobs_of(event));
    assert(after.jobs =~= seq![JobView::Known { tab_id: previous_tab_id@ }]);
}

/// At a start every tab that has a state is brought up to date, one after the other in the
/// order of their names, each in a time of its own.
pub proof fn law_startup_reaches_every_known_tab(runtime: RuntimeView, sessions: Sessions)
    requires
        store::tabs_in(sessions, runtime.session).dom().finite(),
    ensures
        ({
            let (opening, first) = runtime.begun(seq![JobView::Survey]);
            let (after, request) = opening.opened(Ok(sessions));
            let ids = (StoreView { session: runtime.session, sessions }).tab_ids();
            &&& first == RequestView::Open { renew_deadline: true }
            &&& forall|tab: Seq<char>| #[trigger]
                ids.contains(tab) <==> store::looked_up(sessions, runtime.session, tab) is Some
            &&& if ids.len() == 0 {
                request == RequestView::Finish(Ok(()))
            } else {
                &&& request == RequestView::Open { renew_deadline: true }
                &&& after.phase == PhaseView::Opening { job: JobView::Known { tab_id: ids[0] } }
                &&& after.renew
                &&& after.jobs.len() == ids.len() - 1
                &&& forall|i: int|
                    0 <= i < after.jobs.len() ==> #[trigger] after.jobs[i] == (JobView::Known {
                        tab_id: ids[i + 1],
                    })
            }
        }),
{
    let store = StoreView { session: runtime.session, sessions };
    let ids = store.tab_ids();
    let (opening, first) = runtime.begun(seq![JobView::Survey]);
    assert(opening.jobs =~= Seq::<JobView>::empty());
    assert forall|tab: Seq<char>| #[trigger]
        ids.contains(tab) <==> store::looked_up(sessions, runtime.session, tab) is Some by {
        store_laws::law_tab_ids_name_the_known_tabs(store, tab);
    }
    if ids.len() == 0 {
        let found = Seq::new(ids.len(), |i: int| JobView::Known { tab_id: ids[i] });
        assert(found + opening.jobs =~= Seq::<JobView>::empty());
    }
}

/// A pane of another agent, in a tab without a state, changes nothing.
pub proof fn law_other_agents_are_ignored(runtime: RuntimeView, pane: Pane)
    requires
        text::optional_text(pane.agent) != Some("opencode"@),
        runtime.store is Some,
        runtime.store->0.get(pane.tab_id@) is None,
    ensures
        runtime.pane_read(Ok(pane)) == runtime.next_job(),
{
}

/// The tab of a pane is read after the pane, and the title of the pane counts where it is an
/// OpenCode's and the only one of its tab.
pub proof fn law_title_of_a_single_opencode_pane_counts(
    runtime: RuntimeView,
    pane: Pane,
    tab: Tab,
)
    requires
        runtime.store is Some,
        text::optional_text(pane.agent) == Some("opencode"@)
            || runtime.store->0.get(pane.tab_id@) is Some,
    ensures
        ({
            let (reading, asked) = runtime.pane_read(Ok(pane));
            let title = if text::optional_text(pane.agent) == Some("opencode"@)
                && tab.pane_count == 1 {
                text::optional_text(pane.terminal_title_stripped)
            } else {
                None
            };
            &&& asked == RequestView::ReadTab { tab_id: pane.tab_id@ }
            &&& reading.store == runtime.store
            &&& reading.tab_read(Ok(tab)) == reading.applied(
                pane.tab_id@,
                tab,
                title,
                Seq::empty(),
            )
        }),
{
}

/// A decision to rename a tab is carried out: its new state is stored first, unless it is
/// stored already, and then the tab is renamed, and then come the other tabs.
pub proof fn law_renaming_is_carried_out(
    runtime: RuntimeView,
    tab_id: Seq<char>,
    tab: Tab,
    title: Option<Seq<char>>,
    rest: Seq<Seq<char>>,
    to: Seq<char>,
    state: TabStateView,
)
    requires
        runtime.store is Some,
        policy::decided(runtime.store->0.get(tab_id), tab.label@, title, tab.agent_status)
            == (ActionView::Rename { to, state }),
    ensures
        ({
            let (first, asked) = runtime.applied(tab_id, tab, title, rest);
            let (renaming, request) = if runtime.store->0.get(tab_id) == Some(state) {
                (first, asked)
            } else {
                first.flushed(Ok(()))
            };
            &&& runtime.store->0.get(tab_id) != Some(state) ==> asked is Flush
            &&& first.store->0.get(tab_id) == Some(state)
            &&& request == RequestView::Rename { tab_id, to }
            &&& renaming.store == first.store
            &&& renaming.renamed(Ok(())) == renaming.visited(rest)
        }),
{
    store_laws::law_saved_tab_reads_back(runtime.store->0, tab_id, state, tab_id);
}

/// A tab that carries the label, and has the state, that were decided on for its status is
/// left alone, with the title that was decided on and without one.
///
/// Left out is a tracked tab one of whose automatic labels reads like its label, icon and
/// all.
pub proof fn law_settled_tab_is_left_alone(
    runtime: RuntimeView,
    tab_id: Seq<char>,
    before: Option<TabStateView>,
    current: Seq<char>,
    title: Option<Seq<char>>,
    tab: Tab,
    later_title: Option<Seq<char>>,
    rest: Seq<Seq<char>>,
)
    requires
        runtime.store is Some,
        runtime.store->0.get(tab_id) == Some(policy_laws::next_of(before, current, title)),
        tab.label@ == policy::decorated(
            tab.agent_status,
            policy_laws::base_of(before, current, title),
        ),
        later_title is None || later_title == title,
        policy_laws::icon_is_seen(
            policy_laws::next_of(before, current, title),
            tab.label@,
            later_title,
        ),
    ensures
        runtime.applied(tab_id, tab, later_title, rest) == runtime.visited(rest),
{
    policy_laws::law_status_changes_the_icon_alone(
        before,
        current,
        title,
        tab.agent_status,
        tab.agent_status,
        later_title,
    );
}

/// A tab whose label was chosen by hand keeps it, whatever the title: where it shows the
/// label, only the icon in front of it is changed, and nothing is written to disk.
pub proof fn law_pinned_tab_keeps_its_label(
    runtime: RuntimeView,
    tab_id: Seq<char>,
    label: Seq<char>,
    tab: Tab,
    title: Option<Seq<char>>,
    rest: Seq<Seq<char>>,
)
    requires
        runtime.store is Some,
        runtime.store->0.get(tab_id) == Some(TabStateView::Pinned { label: Some(label) }),
        policy::owned(tab.label@, label),
    ensures
        ({
            let to = policy::decorated(tab.agent_status, label);
            runtime.applied(tab_id, tab, title, rest) == if tab.label@ == to {
                runtime.visited(rest)
            } else {
                (
                    RuntimeView { phase: PhaseView::Renaming { rest }, ..runtime },
                    RequestView::Rename { tab_id, to },
                )
            }
        }),
{
    let state = TabStateView::Pinned { label: Some(label) };
    runtime_laws::lemma_saving_again(runtime.store->0, tab_id, state);
}

/// A tab that has a state, and of which Herdr says that it does not exist, is forgotten, and
/// that is no failure.
pub proof fn law_missing_tab_is_forgotten(
    runtime: RuntimeView,
    tab_id: Seq<char>,
    rest: Seq<Seq<char>>,
    failure: Failure,
)
    requires
        runtime.store is Some,
        runtime.phase == (PhaseView::ReadingKnown { tab_id, rest }),
        runtime.store->0.get(tab_id) is Some,
        failure::tab_not_found(failure@),
    ensures
        ({
            let (after, request) = runtime.tab_read(Err(failure));
            &&& request is Flush
            &&& after.store == Some(runtime.store->0.removed(tab_id))
            &&& after.store->0.get(tab_id) is None
            &&& after.first_error == runtime.first_error
            &&& after.flushed(Ok(())) == after.visited(rest)
        }),
{
    store_laws::law_removed_tab_is_gone(runtime.store->0, tab_id, tab_id);
}

/// A tab that is closed is forgotten, and the states that are left are written to disk,
/// where the tab had a state.
pub proof fn law_closed_tab_is_forgotten(
    runtime: RuntimeView,
    tab_id: String,
    sessions: Sessions,
)
    ensures
        ({
            let store = StoreView { session: runtime.session, sessions };
            let (opening, _) = runtime.begun(runtime::jobs_of(EventData::TabClosed { tab_id }));
            let (after, request) = opening.opened(Ok(sessions));
            if store.get(tab_id@) is Some {
                &&& request is Flush
                &&& after.store == Some(store.removed(tab_id@))
                &&& after.store->0.get(tab_id@) is None
                &&& after.flushed(Ok(())).1 == RequestView::Finish(Ok(()))
            } else {
                request == RequestView::Finish(Ok(()))
            }
        }),
{
    let store = StoreView { session: runtime.session, sessions };
    store_laws::law_removed_tab_is_gone(store, tab_id@, tab_id@);
}

/// The tabs of a workspace that is closed are forgotten, and the states that are left are
/// written to disk, where any of the tabs had one.
pub proof fn law_closed_workspace_is_forgotten(
    runtime: RuntimeView,
    workspace_id: String,
    sessions: Sessions,
    tab: Seq<char>,
)
    ensures
        ({
            let store = StoreView { session: runtime.session, sessions };
            let (opening, _) = runtime.begun(
                runtime::jobs_of(EventData::WorkspaceClosed { workspace_id }),
            );
            let (after, request) = opening.opened(Ok(sessions));
            if store::has_workspace(sessions, runtime.session, workspace_id@) {
                &&& request is Flush
                &&& after.store == Some(store.workspace_removed(workspace_id@))
                &&& after.store->0.get(tab) == if store::in_workspace(workspace_id@, tab) {
                    None
                } else {
                    store.get(tab)
                }
                &&& after.flushed(Ok(())).1 == RequestView::Finish(Ok(()))
            } else {
                request == RequestView::Finish(Ok(()))
            }
        }),
{
    let store = StoreView { session: runtime.session, sessions };
    store_laws::law_removed_workspace_is_gone(store, workspace_id@, tab);
}

/// A tab that is created under a name that has a state is forgotten where it still carries
/// the label that it was created with; a tab that has been relabelled since keeps its state.
pub proof fn law_created_tab_is_forgotten_under_its_first_label(
    runtime: RuntimeView,
    created: EventTab,
    sessions: Sessions,
    tab: Tab,
)
    ensures
        ({
            let store = StoreView { session: runtime.session, sessions };
            let (opening, _) = runtime.begun(
                runtime::jobs_of(EventData::TabCreated { tab: created }),
            );
            let (reading, asked) = opening.opened(Ok(sessions));
            let (after, request) = reading.tab_read(Ok(tab));
            if store.get(created.tab_id@) is None {
                asked == RequestView::Finish(Ok(()))
            } else {
                &&& asked == RequestView::ReadTab { tab_id: created.tab_id@ }
                &&& if tab.label@ == created.label@ {
                    &&& request is Flush
                    &&& after.store == Some(store.removed(created.tab_id@))
                    &&& after.store->0.get(created.tab_id@) is None
                } else {
                    request == RequestView::Finish(Ok(()))
                }
            }
        }),
{
    let store = StoreView { session: runtime.session, sessions };
    store_laws::law_removed_tab_is_gone(store, created.tab_id@, created.tab_id@);
}

/// When a pane is closed, each tab of its workspace that has a state is brought up to date,
/// one after the other in the order of their names, under one lock: the first is asked for at
/// once, and every other has its turn to come.
pub proof fn law_closed_pane_reaches_the_tabs_of_its_workspace(
    runtime: RuntimeView,
    workspace_id: String,
    sessions: Sessions,
)
    requires
        store::tabs_in(sessions, runtime.session).dom().finite(),
    ensures
        ({
            let store = StoreView { session: runtime.session, sessions };
            let ids = store.tab_ids_in_workspace(workspace_id@);
            let (opening, _) = runtime.begun(
                runtime::jobs_of(EventData::PaneClosed { workspace_id }),
            );
            let (after, request) = opening.opened(Ok(sessions));
            &&& forall|tab: Seq<char>| #[trigger]
                ids.contains(tab) <==> store.get(tab) is Some && store::in_workspace(
                    workspace_id@,
                    tab,
                )
            &&& if ids.len() == 0 {
                request == RequestView::Finish(Ok(()))
            } else {
                &&& request == RequestView::ReadTab { tab_id: ids[0] }
                &&& after.phase == PhaseView::ReadingKnown {
                    tab_id: ids[0],
                    rest: ids.drop_first(),
                }
                &&& after.store == Some(store)
                &&& forall|tab: Seq<char>| #[trigger]
                    ids.contains(tab) ==> asked_or_to_come(
                        (after, request),
                        tab,
                        store.get(tab)->0,
                    )
            }
        }),
{
    let store = StoreView { session: runtime.session, sessions };
    let ids = store.tab_ids_in_workspace(workspace_id@);
    assert forall|tab: Seq<char>| #[trigger]
        ids.contains(tab) <==> store.get(tab) is Some && store::in_workspace(
            workspace_id@,
            tab,
        ) by {
        store_laws::law_workspace_tab_ids_name_its_known_tabs(store, workspace_id@, tab);
    }
    if ids.len() > 0 {
        assert(ids.contains(ids[0]));
        let (opening, _) = runtime.begun(runtime::jobs_of(EventData::PaneClosed { workspace_id }));
        let with_store = RuntimeView { store: Some(store), ..opening };
        assert forall|tab: Seq<char>| #[trigger] ids.contains(tab) implies asked_or_to_come(
            with_store.visited(ids),
            tab,
            store.get(tab)->0,
        ) by {
            lemma_visited_asks_or_keeps(with_store, ids, tab);
        }
    }
}

/// An event that does not matter asks for nothing.
pub proof fn law_other_events_ask_for_nothing(runtime: RuntimeView)
    ensures
        runtime.begun(runtime::jobs_of(EventData::Other)).1 == RequestView::Finish(Ok(())),
{
}

} // verus!
