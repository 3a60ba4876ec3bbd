//! What each event asks for and each reply leads to, in terms of the states that are stored
//! and of what Herdr says.

use vstd::prelude::*;

use crate::failure;
use crate::failure::{Failure, FailureView};
use crate::label_laws;
use crate::policy;
use crate::policy::{ActionView, TabStateView};
use crate::runtime;
use crate::runtime::{
    EventData, JobView, Pane, PhaseView, RequestView, RuntimeView, Step, Tab,
};
use crate::runtime_laws;
use crate::runtime_laws::Reply;
use crate::store;
use crate::store::{Sessions, StoreView};
use crate::store_laws;
use crate::text;
use crate::text_laws;

verus! {

/// Whether a pane is an OpenCode's.
pub open spec fn opencode(pane: Pane) -> bool {
    pane.agent is Some && pane.agent->0@ == "opencode"@
}

/// What goes wrong first: what did before, else what does now.
pub open spec fn first_of(
    earlier: Option<FailureView>,
    now: Option<FailureView>,
) -> Option<FailureView> {
    if earlier is Some {
        earlier
    } else {
        now
    }
}

/// The result that an event ends with.
pub open spec fn result_of(failure: Option<FailureView>) -> Result<(), FailureView> {
    match failure {
        Some(f) => Err(f),
        None => Ok(()),
    }
}

/// Whether a step leaves a runtime as it was but for its phase and the states at hand.
pub open spec fn stays_with(before: RuntimeView, after: RuntimeView) -> bool {
    &&& after.session == before.session
    &&& after.jobs == before.jobs
    &&& after.renew == before.renew
    &&& after.first_error == before.first_error
}

/// Whether a step ends a job, in which something may have gone wrong: the next job begins,
/// and without any the event ends with what went wrong first.
pub open spec fn ends_the_job(
    before: RuntimeView,
    failure: Option<FailureView>,
    step: Step,
) -> bool {
    let (after, request) = step;
    let first = first_of(before.first_error, failure);
    &&& after.session == before.session
    &&& after.renew == before.renew
    &&& after.store is None
    &&& if before.jobs.len() == 0 {
        &&& request == RequestView::Finish(result_of(first))
        &&& after.phase is Idle
        &&& after.jobs.len() == 0
        &&& after.first_error is None
    } else {
        &&& request == RequestView::Open { renew_deadline: before.renew }
        &&& after.phase == PhaseView::Opening { job: before.jobs[0] }
        &&& after.jobs == before.jobs.subrange(1, before.jobs.len() as int)
        &&& after.first_error == first
    }
}

/// Whether a step asks for the tab at a place of a row, which is the first there that has a
/// state.
pub open spec fn asks_for(
    before: RuntimeView,
    store: StoreView,
    row: Seq<Seq<char>>,
    i: int,
    failure: Option<FailureView>,
    step: Step,
) -> bool {
    let (after, request) = step;
    &&& 0 <= i < row.len()
    &&& store.get(row[i]) is Some
    &&& forall|j: int| 0 <= j < i ==> store.get(#[trigger] row[j]) is None
    &&& request == RequestView::ReadTab { tab_id: row[i] }
    &&& after.phase == PhaseView::ReadingKnown {
        tab_id: row[i],
        rest: row.subrange(i + 1, row.len() as int),
    }
    &&& after.store == Some(store)
    &&& after.session == before.session
    &&& after.jobs == before.jobs
    &&& after.renew == before.renew
    &&& after.first_error == first_of(before.first_error, failure)
}

/// Whether a step goes on to the first tab of a row that has a state, and, where none has
/// one, ends the job.
pub open spec fn goes_on(
    before: RuntimeView,
    store: StoreView,
    row: Seq<Seq<char>>,
    failure: Option<FailureView>,
    step: Step,
) -> bool {
    ||| exists|i: int| #[trigger] asks_for(before, store, row, i, failure, step)
    ||| {
        &&& forall|j: int| 0 <= j < row.len() ==> store.get(#[trigger] row[j]) is None
        &&& ends_the_job(before, failure, step)
    }
}

/// Whether two states of the store are the same but for one tab, which has a given state or
/// none.
pub open spec fn same_but_for(
    before: StoreView,
    after: StoreView,
    tab: Seq<char>,
    state: Option<TabStateView>,
) -> bool {
    &&& after.session == before.session
    &&& after.get(tab) == state
    &&& forall|other: Seq<char>|
        other != tab ==> #[trigger] after.get(other) == before.get(other)
    &&& runtime_laws::same_elsewhere(before, after)
}

/// Whether a step asks for the states at hand to be written to disk, after a change.
pub open spec fn writes(
    before: RuntimeView,
    rename: Option<(Seq<char>, Seq<char>)>,
    row: Seq<Seq<char>>,
    step: Step,
) -> bool {
    let (after, request) = step;
    &&& request == RequestView::Flush
    &&& after.phase == PhaseView::Flushing { rename, rest: row }
    &&& after.store is Some
    &&& stays_with(before, after)
}

/// Whether a step does what is decided about a tab, and nothing else: a new state is the only
/// change to the states, and is written; a renaming is of that tab and to that label, and
/// comes after; and where there is nothing to do, it goes on.
pub open spec fn does_what_is_decided(
    before: RuntimeView,
    tab_id: Seq<char>,
    row: Seq<Seq<char>>,
    action: ActionView,
    step: Step,
) -> bool {
    let from = before.store->0;
    let (after, request) = step;
    match action {
        ActionView::Nothing => goes_on(before, from, row, None, step),
        ActionView::Save(state) => {
            &&& writes(before, None, row, step)
            &&& same_but_for(from, after.store->0, tab_id, Some(state))
        },
        ActionView::Rename { to, state } => if from.get(tab_id) == Some(state) {
            &&& request == RequestView::Rename { tab_id, to }
            &&& after.phase == PhaseView::Renaming { rest: row }
            &&& after.store == before.store
            &&& stays_with(before, after)
        } else {
            &&& writes(before, Some((tab_id, to)), row, step)
            &&& same_but_for(from, after.store->0, tab_id, Some(state))
        },
    }
}

proof fn lemma_next_job_ends_the_job(before: RuntimeView, now: RuntimeView, failure: Option<
    FailureView,
>)
    requires
        now.session == before.session,
        now.jobs == before.jobs,
        now.renew == before.renew,
        now.first_error == first_of(before.first_error, failure),
    ensures
        ends_the_job(before, failure, now.next_job()),
{
    if before.jobs.len() > 0 {
        assert(before.jobs.drop_first() =~= before.jobs.subrange(1, before.jobs.len() as int));
    }
}

proof fn lemma_visited_goes_on(
    before: RuntimeView,
    now: RuntimeView,
    row: Seq<Seq<char>>,
    failure: Option<FailureView>,
)
    requires
        now.session == before.session,
        now.jobs == before.jobs,
        now.renew == before.renew,
        now.first_error == first_of(before.first_error, failure),
        now.store is Some || row.len() == 0,
    ensures
        goes_on(before, now.store->0, row, failure, now.visited(row)),
    decreases row.len(),
{
    let store = now.store->0;
    let step = now.visited(row);
    if row.len() == 0 {
        lemma_next_job_ends_the_job(before, now, failure);
    } else if store.get(row[0]) is Some {
        assert(row.drop_first() =~= row.subrange(1, row.len() as int));
        assert(asks_for(before, store, row, 0, failure, step));
    } else {
        let rest = row.drop_first();
        lemma_visited_goes_on(before, now, rest, failure);
        if exists|i: int| #[trigger] asks_for(before, store, rest, i, failure, step) {
            let i = choose|i: int| #[trigger] asks_for(before, store, rest, i, failure, step);
            assert forall|j: int| 0 <= j < i + 1 implies store.get(#[trigger] row[j]) is None by {
                if j > 0 {
                    assert(store.get(rest[j - 1]) is None);
                }
            }
            assert(rest.subrange(i + 1, rest.len() as int) =~= row.subrange(
                i + 2,
                row.len() as int,
            ));
            assert(asks_for(before, store, row, i + 1, failure, step));
        } else {
            assert forall|j: int| 0 <= j < row.len() implies store.get(
                #[trigger] row[j],
            ) is None by {
                if j > 0 {
                    assert(store.get(rest[j - 1]) is None);
                }
            }
        }
    }
}

proof fn lemma_changes(store: StoreView, tab: Seq<char>, state: TabStateView)
    ensures
        same_but_for(store, store.saved(tab, state), tab, Some(state)),
        same_but_for(store, store.removed(tab), tab, None),
{
    store_laws::law_saved_tab_reads_back(store, tab, state, tab);
    store_laws::law_removed_tab_is_gone(store, tab, tab);
    assert forall|other: Seq<char>| other != tab implies #[trigger] store.saved(tab, state).get(
        other,
    ) == store.get(other) by {
        store_laws::law_saved_tab_reads_back(store, tab, state, other);
    }
    assert forall|other: Seq<char>| other != tab implies #[trigger] store.removed(tab).get(other)
        == store.get(other) by {
        store_laws::law_removed_tab_is_gone(store, tab, other);
    }
}

/// Work begins with the first of a row of jobs and the others left behind it, in a time that
/// begins now and is shared by them all; nothing is left of the work before.
pub proof fn law_work_begins_with_the_first_job(runtime: RuntimeView, jobs: Seq<JobView>)
    ensures
        ({
            let (after, request) = runtime.begun(jobs);
            &&& after.session == runtime.session
            &&& after.store is None
            &&& after.first_error is None
            &&& !after.renew
            &&& if jobs.len() == 0 {
                &&& request == RequestView::Finish(Ok(()))
                &&& after.phase is Idle
                &&& after.jobs.len() == 0
            } else {
                &&& request == RequestView::Open { renew_deadline: true }
                &&& after.phase == PhaseView::Opening { job: jobs[0] }
                &&& after.jobs == jobs.subrange(1, jobs.len() as int)
            }
        }),
{
    if jobs.len() > 0 {
        assert(jobs.drop_first() =~= jobs.subrange(1, jobs.len() as int));
    }
}

/// Every event has the jobs that its kind asks for, on just what it names: one job, but for
/// a pane that moved between two tabs, which has a second one for the tab that it left, and
/// for an event that does not matter, which has none.
pub proof fn law_events_ask_for_their_jobs(runtime: RuntimeView, event: EventData)
    ensures
        ({
            let (after, request) = runtime.begun(runtime::jobs_of(event));
            let none = Seq::<JobView>::empty();
            let alone = request == (RequestView::Open { renew_deadline: true }) && after.jobs
                == none;
            match event {
                EventData::PaneAgentStatusChanged { pane_id } => alone && after.phase
                    == (PhaseView::Opening { job: JobView::Pane { pane_id: pane_id@ } }),
                EventData::TabCreated { tab } => alone && after.phase == (PhaseView::Opening {
                    job: JobView::Created { tab_id: tab.tab_id@, label: tab.label@ },
                }),
                EventData::TabFocused { tab_id } => alone && after.phase == (PhaseView::Opening {
                    job: JobView::Known { tab_id: tab_id@ },
                }),
                EventData::TabRenamed { tab_id } => alone && after.phase == (PhaseView::Opening {
                    job: JobView::Known { tab_id: tab_id@ },
                }),
                EventData::PaneMoved { previous_tab_id, pane } => {
                    &&& request == RequestView::Open { renew_deadline: true }
                    &&& after.phase == PhaseView::Opening {
                        job: JobView::Pane { pane_id: pane.pane_id@ },
                    }
                    &&& after.jobs == if previous_tab_id@ == pane.tab_id@ {
                        none
                    } else {
                        seq![JobView::Known { tab_id: previous_tab_id@ }]
                    }
                },
                EventData::PaneClosed { workspace_id } => alone && after.phase
                    == (PhaseView::Opening {
                    job: JobView::Workspace { workspace_id: workspace_id@ },
                }),
                EventData::TabClosed { tab_id } => alone && after.phase == (PhaseView::Opening {
                    job: JobView::CloseTab { tab_id: tab_id@ },
                }),
                EventData::WorkspaceClosed { workspace_id } => alone && after.phase
                    == (PhaseView::Opening {
                    job: JobView::CloseWorkspace { workspace_id: workspace_id@ },
                }),
                EventData::Other => request == RequestView::Finish(Ok(())) && after.phase is Idle,
            }
        }),
{
    let after = runtime.begun(runtime::jobs_of(event)).0;
    match event {
        EventData::PaneMoved { previous_tab_id, pane } => {
            if previous_tab_id@ == pane.tab_id@ {
                assert(after.jobs =~= Seq::<JobView>::empty());
            } else {
                assert(after.jobs =~= seq![JobView::Known { tab_id: previous_tab_id@ }]);
            }
        },
        _ => {
            assert(after.jobs =~= Seq::<JobView>::empty());
        },
    }
}

/// What each job does once the stored states are read: it asks for just the pane or the tab
/// that it is about, or forgets just the tabs that it is about, on the states as they were
/// read.
pub proof fn law_jobs_begin_with_what_they_are_about(runtime: RuntimeView, sessions: Sessions)
    requires
        runtime.phase is Opening,
    ensures
        ({
            let store = StoreView { session: runtime.session, sessions };
            let step = runtime.opened(Ok(sessions));
            let (after, request) = step;
            let none = Seq::<Seq<char>>::empty();
            match runtime.phase->job {
                JobView::Pane { pane_id } => {
                    &&& request == RequestView::ReadPane { pane_id }
                    &&& after.phase is ReadingPane
                    &&& after.store == Some(store)
                    &&& stays_with(runtime, after)
                },
                JobView::Known { tab_id } => goes_on(runtime, store, seq![tab_id], None, step),
                JobView::Workspace { workspace_id } => goes_on(
                    runtime,
                    store,
                    store.tab_ids_in_workspace(workspace_id),
                    None,
                    step,
                ),
                JobView::Created { tab_id, label } => if store.get(tab_id) is Some {
                    &&& request == RequestView::ReadTab { tab_id }
                    &&& after.phase == PhaseView::ReadingCreated { tab_id, label }
                    &&& after.store == Some(store)
                    &&& stays_with(runtime, after)
                } else {
                    ends_the_job(runtime, None, step)
                },
                JobView::CloseTab { tab_id } => if store.get(tab_id) is Some {
                    &&& writes(runtime, None, none, step)
                    &&& same_but_for(store, after.store->0, tab_id, None)
                } else {
                    ends_the_job(runtime, None, step)
                },
                JobView::CloseWorkspace { workspace_id } => if exists|tab: Seq<char>|
                    #[trigger]
                    store::in_workspace(workspace_id, tab) && store.get(tab) is Some {
                    &&& writes(runtime, None, none, step)
                    &&& after.store->0.session == store.session
                    &&& forall|tab: Seq<char>| #[trigger]
                        after.store->0.get(tab) == if store::in_workspace(workspace_id, tab) {
                            None
                        } else {
                            store.get(tab)
                        }
                    &&& runtime_laws::same_elsewhere(store, after.store->0)
                } else {
                    ends_the_job(runtime, None, step)
                },
                JobView::Survey => {
                    let ids = store.tab_ids();
                    let all = Seq::new(ids.len(), |i: int| JobView::Known { tab_id: ids[i] })
                        + runtime.jobs;
                    ends_the_job(RuntimeView { jobs: all, renew: true, ..runtime }, None, step)
                },
            }
        }),
{
    let store = StoreView { session: runtime.session, sessions };
    let now = RuntimeView { store: Some(store), ..runtime };
    let none = Seq::<Seq<char>>::empty();
    match runtime.phase->job {
        JobView::Pane { pane_id } => {},
        JobView::Known { tab_id } => {
            lemma_visited_goes_on(runtime, now, seq![tab_id], None);
        },
        JobView::Workspace { workspace_id } => {
            lemma_visited_goes_on(runtime, now, store.tab_ids_in_workspace(workspace_id), None);
        },
        JobView::Created { tab_id, label } => {
            lemma_next_job_ends_the_job(runtime, now, None);
        },
        JobView::CloseTab { tab_id } => {
            lemma_changes(store, tab_id, TabStateView::Pinned { label: None });
            lemma_next_job_ends_the_job(
                runtime,
                RuntimeView { store: Some(store.removed(tab_id)), ..runtime },
                None,
            );
        },
        JobView::CloseWorkspace { workspace_id } => {
            store_laws::law_workspace_is_there_with_its_tabs(
                sessions,
                runtime.session,
                workspace_id,
            );
            if exists|tab: Seq<char>| #[trigger]
                store::in_workspace(workspace_id, tab) && store.get(tab) is Some {
                let tab = choose|tab: Seq<char>| #[trigger]
                    store::in_workspace(workspace_id, tab) && store.get(tab) is Some;
                assert(store::looked_up(sessions, runtime.session, tab) is Some);
                assert(store::has_workspace(sessions, runtime.session, workspace_id));
            } else {
                assert(!store::has_workspace(sessions, runtime.session, workspace_id)) by {
                    if store::has_workspace(sessions, runtime.session, workspace_id) {
                        let tab = choose|tab: Seq<char>| #[trigger]
                            store::in_workspace(workspace_id, tab) && store::looked_up(
                                sessions,
                                runtime.session,
                                tab,
                            ) is Some;
                        assert(store.get(tab) is Some);
                    }
                }
            }
            assert forall|tab: Seq<char>| #[trigger]
                store.workspace_removed(workspace_id).get(tab) == if store::in_workspace(
                    workspace_id,
                    tab,
                ) {
                    None
                } else {
                    store.get(tab)
                } by {
                store_laws::law_removed_workspace_is_gone(store, workspace_id, tab);
            }
            lemma_next_job_ends_the_job(
                runtime,
                RuntimeView { store: Some(store.workspace_removed(workspace_id)), ..runtime },
                None,
            );
        },
        JobView::Survey => {
            let ids = store.tab_ids();
            let all = Seq::new(ids.len(), |i: int| JobView::Known { tab_id: ids[i] })
                + runtime.jobs;
            lemma_next_job_ends_the_job(
                RuntimeView { jobs: all, renew: true, ..runtime },
                RuntimeView { jobs: all, renew: true, ..now },
                None,
            );
        },
    }
}

/// A job for which the stored states cannot be read ends with that, and the next one begins.
pub proof fn law_job_ends_without_the_states(runtime: RuntimeView, f: FailureView)
    ensures
        ends_the_job(runtime, Some(f), runtime.opened(Err(f))),
{
    lemma_next_job_ends_the_job(runtime, runtime.noted(Err(f)), Some(f));
}

/// Once a pane is known, its tab is asked for, where the pane is an OpenCode's or the tab has
/// a state; else the job ends, as it does, with the failure, where the pane is not known.
pub proof fn law_pane_leads_to_its_tab(runtime: RuntimeView, pane: Pane, failure: Failure)
    requires
        runtime.store is Some,
    ensures
        ({
            let (after, request) = runtime.pane_read(Ok(pane));
            if opencode(pane) || runtime.store->0.get(pane.tab_id@) is Some {
                &&& request == RequestView::ReadTab { tab_id: pane.tab_id@ }
                &&& after.phase matches PhaseView::ReadingPaneTab { tab_id, title } && {
                    &&& tab_id == pane.tab_id@
                    &&& title == if opencode(pane) && pane.terminal_title_stripped is Some {
                        Some(pane.terminal_title_stripped->0@)
                    } else {
                        None
                    }
                }
                &&& after.store == runtime.store
                &&& stays_with(runtime, after)
            } else {
                ends_the_job(runtime, None, runtime.pane_read(Ok(pane)))
            }
        }),
        ends_the_job(runtime, Some(failure@), runtime.pane_read(Err(failure))),
{
    lemma_next_job_ends_the_job(runtime, runtime, None);
    lemma_next_job_ends_the_job(runtime, runtime.noted(Err(failure@)), Some(failure@));
}

proof fn lemma_applied_does_what_is_decided(
    runtime: RuntimeView,
    tab_id: Seq<char>,
    tab: Tab,
    title: Option<Seq<char>>,
    row: Seq<Seq<char>>,
)
    requires
        runtime.store is Some,
        runtime.store->0.session == runtime.session,
    ensures
        does_what_is_decided(
            runtime,
            tab_id,
            row,
            policy::decided(runtime.store->0.get(tab_id), tab.label@, title, tab.agent_status),
            runtime.applied(tab_id, tab, title, row),
        ),
{
    let from = runtime.store->0;
    let action = policy::decided(from.get(tab_id), tab.label@, title, tab.agent_status);
    label_laws::law_nothing_is_decided_without_need(
        from.get(tab_id),
        tab.label@,
        title,
        tab.agent_status,
    );
    lemma_visited_goes_on(runtime, runtime, row, None);
    match action {
        ActionView::Nothing => {},
        ActionView::Save(state) => {
            lemma_changes(from, tab_id, state);
        },
        ActionView::Rename { to, state } => {
            lemma_changes(from, tab_id, state);
            if from.get(tab_id) == Some(state) {
                runtime_laws::lemma_saving_again(from, tab_id, state);
            }
        },
    }
}

/// Once the tab of a pane is known, what is decided about it is done, with the title of the
/// pane where the pane is the only one of the tab; where it is not known, the job ends with
/// that.
pub proof fn law_tab_of_a_pane_is_brought_up_to_date(
    runtime: RuntimeView,
    tab: Tab,
    failure: Failure,
)
    requires
        runtime.valid(),
        runtime.phase is ReadingPaneTab,
    ensures
        ({
            let tab_id = runtime.phase->ReadingPaneTab_tab_id;
            let title = if tab.pane_count == 1 {
                runtime.phase->title
            } else {
                None
            };
            does_what_is_decided(
                runtime,
                tab_id,
                Seq::empty(),
                policy::decided(runtime.store->0.get(tab_id), tab.label@, title, tab.agent_status),
                runtime.tab_read(Ok(tab)),
            )
        }),
        ends_the_job(runtime, Some(failure@), runtime.tab_read(Err(failure))),
{
    let tab_id = runtime.phase->ReadingPaneTab_tab_id;
    let title = if tab.pane_count == 1 {
        runtime.phase->title
    } else {
        None
    };
    lemma_applied_does_what_is_decided(runtime, tab_id, tab, title, Seq::empty());
    lemma_next_job_ends_the_job(runtime, runtime.noted(Err(failure@)), Some(failure@));
}

/// Once a tab that has a state is known, what is decided about it without a title is done.
/// Where Herdr says that it does not exist, it is forgotten, and no other; and any other
/// failure is noted, and the row goes on.
pub proof fn law_known_tab_is_brought_up_to_date(
    runtime: RuntimeView,
    tab: Tab,
    failure: Failure,
)
    requires
        runtime.valid(),
        runtime.phase is ReadingKnown,
        runtime.store->0.get(runtime.phase->ReadingKnown_tab_id) is Some,
    ensures
        ({
            let tab_id = runtime.phase->ReadingKnown_tab_id;
            let row = runtime.phase->ReadingKnown_rest;
            does_what_is_decided(
                runtime,
                tab_id,
                row,
                policy::decided(runtime.store->0.get(tab_id), tab.label@, None, tab.agent_status),
                runtime.tab_read(Ok(tab)),
            )
        }),
        ({
            let tab_id = runtime.phase->ReadingKnown_tab_id;
            let row = runtime.phase->ReadingKnown_rest;
            let step = runtime.tab_read(Err(failure));
            if failure::tab_not_found(failure@) {
                &&& writes(runtime, None, row, step)
                &&& same_but_for(runtime.store->0, step.0.store->0, tab_id, None)
            } else {
                goes_on(runtime, runtime.store->0, row, Some(failure@), step)
            }
        }),
{
    let tab_id = runtime.phase->ReadingKnown_tab_id;
    let row = runtime.phase->ReadingKnown_rest;
    lemma_applied_does_what_is_decided(runtime, tab_id, tab, None, row);
    lemma_changes(runtime.store->0, tab_id, TabStateView::Pinned { label: None });
    lemma_visited_goes_on(runtime, runtime.noted(Err(failure@)), row, Some(failure@));
}

/// Once a tab that is new under a name that has a state is known, it is forgotten, and no
/// other, where it still has the label that it was created with; else the job ends.
pub proof fn law_created_tab_is_forgotten_or_kept(
    runtime: RuntimeView,
    tab: Tab,
    failure: Failure,
)
    requires
        runtime.valid(),
        runtime.phase is ReadingCreated,
        runtime.store->0.get(runtime.phase->ReadingCreated_tab_id) is Some,
    ensures
        ({
            let tab_id = runtime.phase->ReadingCreated_tab_id;
            let step = runtime.tab_read(Ok(tab));
            if tab.label@ == runtime.phase->label {
                &&& writes(runtime, None, Seq::empty(), step)
                &&& same_but_for(runtime.store->0, step.0.store->0, tab_id, None)
            } else {
                ends_the_job(runtime, None, step)
            }
        }),
        ends_the_job(runtime, Some(failure@), runtime.tab_read(Err(failure))),
{
    let tab_id = runtime.phase->ReadingCreated_tab_id;
    lemma_changes(runtime.store->0, tab_id, TabStateView::Pinned { label: None });
    lemma_next_job_ends_the_job(runtime, runtime, None);
    lemma_next_job_ends_the_job(runtime, runtime.noted(Err(failure@)), Some(failure@));
}

/// Once the states are on disk, the tab that is to be renamed is renamed, and without one the
/// row goes on; where they are not, no tab is renamed, and the row goes on with the failure
/// noted.
pub proof fn law_renaming_waits_for_the_disk(runtime: RuntimeView, f: FailureView)
    requires
        runtime.phase is Flushing,
        runtime.store is Some,
    ensures
        ({
            let row = runtime.phase->Flushing_rest;
            let step = runtime.flushed(Ok(()));
            match runtime.phase->rename {
                Some((tab_id, to)) => {
                    &&& step.1 == RequestView::Rename { tab_id, to }
                    &&& step.0.phase == PhaseView::Renaming { rest: row }
                    &&& step.0.store == runtime.store
                    &&& stays_with(runtime, step.0)
                },
                None => goes_on(runtime, runtime.store->0, row, None, step),
            }
        }),
        goes_on(
            runtime,
            runtime.store->0,
            runtime.phase->Flushing_rest,
            Some(f),
            runtime.flushed(Err(f)),
        ),
{
    let row = runtime.phase->Flushing_rest;
    lemma_visited_goes_on(runtime, runtime, row, None);
    lemma_visited_goes_on(runtime, runtime.noted(Err(f)), row, Some(f));
}

/// Once a tab is renamed, or is not, the row goes on, in the latter case with the failure
/// noted.
pub proof fn law_row_goes_on_after_a_renaming(runtime: RuntimeView, f: FailureView)
    requires
        runtime.phase is Renaming,
        runtime.store is Some,
    ensures
        goes_on(
            runtime,
            runtime.store->0,
            runtime.phase->Renaming_rest,
            None,
            runtime.renamed(Ok(())),
        ),
        goes_on(
            runtime,
            runtime.store->0,
            runtime.phase->Renaming_rest,
            Some(f),
            runtime.renamed(Err(f)),
        ),
{
    let row = runtime.phase->Renaming_rest;
    lemma_visited_goes_on(runtime, runtime, row, None);
    lemma_visited_goes_on(runtime, runtime.noted(Err(f)), row, Some(f));
}

/// A change of status in any pane leads to reading the stored states, and then, whatever they
/// are, to asking Herdr for that very pane.
pub proof fn law_status_change_leads_to_its_pane(
    runtime: RuntimeView,
    pane_id: String,
    sessions: Sessions,
)
    ensures
        ({
            let event = EventData::PaneAgentStatusChanged { pane_id };
            let (opening, first) = runtime.begun(runtime::jobs_of(event));
            let (after, second) = opening.opened(Ok(sessions));
            &&& first == RequestView::Open { renew_deadline: true }
            &&& second == RequestView::ReadPane { pane_id: pane_id@ }
            &&& after.store == Some(StoreView { session: runtime.session, sessions })
            &&& after.jobs.len() == 0
        }),
{
    let event = EventData::PaneAgentStatusChanged { pane_id };
    law_events_ask_for_their_jobs(runtime, event);
    law_jobs_begin_with_what_they_are_about(
        runtime.begun(runtime::jobs_of(event)).0,
        sessions,
    );
}

/// The whole of what a change of status does for a tab that is new to it and has a label that
/// tabs get by themselves: the pane is read, then its tab, the state is stored, the tab gets
/// the title of the pane behind its icon, whole, and the event ends well.
pub proof fn law_new_tab_gets_the_title_of_its_pane(
    runtime: RuntimeView,
    pane_id: String,
    sessions: Sessions,
    pane: Pane,
    tab: Tab,
)
    requires
        opencode(pane),
        tab.pane_count == 1,
        store::looked_up(sessions, runtime.session, pane.tab_id@) is None,
        label_laws::agent_name(tab.label@) || text_laws::fits(tab.label@),
        pane.terminal_title_stripped is Some,
        ({
            let title = pane.terminal_title_stripped->0@;
            &&& title.len() > 0
            &&& !text::white_space(title.first())
            &&& !text::white_space(title.last())
            &&& title != tab.label@
        }),
    ensures
        ({
            let event = EventData::PaneAgentStatusChanged { pane_id };
            let title = pane.terminal_title_stripped->0@;
            let (opening, first) = runtime.begun(runtime::jobs_of(event));
            let (reading_pane, second) = opening.opened(Ok(sessions));
            let (reading_tab, third) = reading_pane.pane_read(Ok(pane));
            let (flushing, fourth) = reading_tab.tab_read(Ok(tab));
            let (renaming, fifth) = flushing.flushed(Ok(()));
            let (idle, sixth) = renaming.renamed(Ok(()));
            &&& first == RequestView::Open { renew_deadline: true }
            &&& second == RequestView::ReadPane { pane_id: pane_id@ }
            &&& third == RequestView::ReadTab { tab_id: pane.tab_id@ }
            &&& fourth == RequestView::Flush
            &&& same_but_for(
                StoreView { session: runtime.session, sessions },
                flushing.store->0,
                pane.tab_id@,
                Some(TabStateView::Tracking { labels: seq![tab.label@, title] }),
            )
            &&& fifth == RequestView::Rename {
                tab_id: pane.tab_id@,
                to: seq![policy::icon_of(tab.agent_status), ' '] + title,
            }
            &&& sixth == RequestView::Finish(Ok(()))
        }),
{
    let event = EventData::PaneAgentStatusChanged { pane_id };
    let title = pane.terminal_title_stripped->0@;
    let opening = runtime.begun(runtime::jobs_of(event)).0;
    let reading_pane = opening.opened(Ok(sessions)).0;
    let reading_tab = reading_pane.pane_read(Ok(pane)).0;
    let flushing = reading_tab.tab_read(Ok(tab)).0;
    let renaming = flushing.flushed(Ok(())).0;
    let any = Failure::Other(pane_id);
    law_work_begins_with_the_first_job(runtime, runtime::jobs_of(event));
    law_status_change_leads_to_its_pane(runtime, pane_id, sessions);
    law_jobs_begin_with_what_they_are_about(opening, sessions);
    law_pane_leads_to_its_tab(reading_pane, pane, any);
    law_tab_of_a_pane_is_brought_up_to_date(reading_tab, tab, any);
    label_laws::law_default_label_makes_way_for_the_title(tab.label@, title, tab.agent_status);
    let to = policy::decorated(tab.agent_status, title);
    assert(to =~= seq![policy::icon_of(tab.agent_status), ' '] + title);
    law_renaming_waits_for_the_disk(flushing, any@);
    law_row_goes_on_after_a_renaming(renaming, any@);
}

/// Whether an event ends well from a step on, where all that it asks for is done, with a
/// given tab having a state in all that is written to disk, and no tab but that one renamed.
pub open spec fn ends_well_with(step: Step, tab_id: Seq<char>) -> bool {
    let (after, request) = step;
    let renames_well = |s: Step|
        {
            &&& s.1 matches RequestView::Rename { tab_id: id, .. } && id == tab_id
            &&& s.0.renamed(Ok(())).1 == RequestView::Finish(Ok(()))
        };
    ||| request == RequestView::Finish(Ok(()))
    ||| renames_well(step)
    ||| {
        &&& request is Flush
        &&& after.store is Some
        &&& after.store->0.get(tab_id) is Some
        &&& {
            ||| after.flushed(Ok(())).1 == RequestView::Finish(Ok(()))
            ||| renames_well(after.flushed(Ok(())))
        }
    }
}

/// A tab that is focused or renamed, and has a state, is asked for; and where Herdr describes
/// it, the event ends well with the tab having a state, whatever its label and status. A tab
/// without a state is not asked for. Nothing follows.
pub proof fn law_refreshed_tab_keeps_a_state(
    runtime: RuntimeView,
    tab_id: String,
    event: EventData,
    sessions: Sessions,
    tab: Tab,
)
    requires
        event == (EventData::TabFocused { tab_id }) || event == (EventData::TabRenamed { tab_id }),
    ensures
        ({
            let (opening, first) = runtime.begun(runtime::jobs_of(event));
            let (reading, second) = opening.opened(Ok(sessions));
            let known = store::looked_up(sessions, runtime.session, tab_id@);
            &&& first == RequestView::Open { renew_deadline: true }
            &&& opening.jobs.len() == 0
            &&& if known is Some {
                &&& second == RequestView::ReadTab { tab_id: tab_id@ }
                &&& ends_well_with(reading.tab_read(Ok(tab)), tab_id@)
            } else {
                second == RequestView::Finish(Ok(()))
            }
        }),
{
    let (opening, first) = runtime.begun(runtime::jobs_of(event));
    let (reading, second) = opening.opened(Ok(sessions));
    let store = StoreView { session: runtime.session, sessions };
    let row = seq![tab_id@];
    let any = Failure::Other(tab_id);
    law_events_ask_for_their_jobs(runtime, event);
    law_work_begins_with_the_first_job(runtime, runtime::jobs_of(event));
    law_jobs_begin_with_what_they_are_about(opening, sessions);
    assert(row[0] == tab_id@);
    if store.get(tab_id@) is Some {
        let i = choose|i: int| #[trigger] asks_for(opening, store, row, i, None, (reading, second));
        assert(asks_for(opening, store, row, i, None, (reading, second)));
        assert(i == 0);
        assert(reading.phase->ReadingKnown_rest =~= Seq::<Seq<char>>::empty());
        law_known_tab_is_brought_up_to_date(reading, tab, any);
        let (after, request) = reading.tab_read(Ok(tab));
        let action = policy::decided(store.get(tab_id@), tab.label@, None, tab.agent_status);
        match action {
            ActionView::Nothing => {
                lemma_empty_row_ends(reading, store, None, (after, request));
            },
            ActionView::Save(state) => {
                law_renaming_waits_for_the_disk(after, any@);
                lemma_empty_row_ends(after, after.store->0, None, after.flushed(Ok(())));
            },
            ActionView::Rename { to, state } => {
                if store.get(tab_id@) == Some(state) {
                    law_row_goes_on_after_a_renaming(after, any@);
                    lemma_empty_row_ends(after, after.store->0, None, after.renamed(Ok(())));
                } else {
                    law_renaming_waits_for_the_disk(after, any@);
                    let renaming = after.flushed(Ok(())).0;
                    law_row_goes_on_after_a_renaming(renaming, any@);
                    lemma_empty_row_ends(
                        renaming,
                        renaming.store->0,
                        None,
                        renaming.renamed(Ok(())),
                    );
                }
            },
        }
    } else {
        assert forall|i: int| !(#[trigger] asks_for(
            opening,
            store,
            row,
            i,
            None,
            (reading, second),
        )) by {
            if asks_for(opening, store, row, i, None, (reading, second)) {
                assert(row[i] == tab_id@);
            }
        }
    }
}

proof fn lemma_empty_row_ends(
    before: RuntimeView,
    store: StoreView,
    failure: Option<FailureView>,
    step: Step,
)
    requires
        goes_on(before, store, Seq::empty(), failure, step),
    ensures
        ends_the_job(before, failure, step),
{
}

/// Whether a reply is a reason to forget a tab: the tab is closed, or its workspace is, or
/// Herdr says that the tab does not exist, or that it still has the label that it was created
/// with.
pub open spec fn forgets(runtime: RuntimeView, reply: Reply, tab: Seq<char>) -> bool {
    match (runtime.phase, reply) {
        (PhaseView::Opening { job: JobView::CloseTab { tab_id } }, Reply::Opened(Ok(_))) => {
            tab_id == tab
        },
        (
            PhaseView::Opening { job: JobView::CloseWorkspace { workspace_id } },
            Reply::Opened(Ok(_)),
        ) => store::in_workspace(workspace_id, tab),
        (PhaseView::ReadingKnown { tab_id, .. }, Reply::TabRead(Err(f))) => {
            tab_id == tab && failure::tab_not_found(f@)
        },
        (PhaseView::ReadingCreated { tab_id, label }, Reply::TabRead(Ok(read))) => {
            tab_id == tab && read.label@ == label
        },
        _ => false,
    }
}

/// Whether a reply describes a tab that is to be brought up to date.
pub open spec fn described(runtime: RuntimeView, reply: Reply, tab: Seq<char>) -> bool {
    match (runtime.phase, reply) {
        (PhaseView::ReadingKnown { tab_id, .. }, Reply::TabRead(Ok(_))) => tab_id == tab,
        (PhaseView::ReadingPaneTab { tab_id, .. }, Reply::TabRead(Ok(_))) => tab_id == tab,
        _ => false,
    }
}

/// The state of a tab is forgotten only where the tab is closed, or its workspace is, or
/// where Herdr says that the tab does not exist, or that it has been created anew; and no
/// other step takes a state away. A state changes only where Herdr has just described that
/// tab.
pub proof fn law_states_are_forgotten_for_a_reason(
    runtime: RuntimeView,
    reply: Reply,
    tab_id: Seq<char>,
)
    requires
        runtime_laws::sound(runtime),
        runtime_laws::answers(runtime, reply),
    ensures
        ({
            let after = runtime_laws::resumed(runtime, reply).0;
            runtime_laws::states_before(runtime, reply) matches Some(from) ==> (after.store
                matches Some(to) ==> to.get(tab_id) != from.get(tab_id) ==> if to.get(tab_id) is None {
                forgets(runtime, reply, tab_id)
            } else {
                described(runtime, reply, tab_id)
            })
        }),
{
    let after = runtime_laws::resumed(runtime, reply).0;
    runtime_laws::law_states_change_in_one_session_and_are_written(runtime, reply);
    match reply {
        Reply::Opened(Ok(sessions)) => {
            let store = StoreView { session: runtime.session, sessions };
            law_jobs_begin_with_what_they_are_about(runtime, sessions);
            match runtime.phase->job {
                JobView::CloseTab { tab_id: id } => {
                    assert(id != tab_id ==> (after.store matches Some(to) ==> to.get(tab_id)
                        == store.get(tab_id)));
                },
                JobView::CloseWorkspace { workspace_id } => {
                    assert(after.store matches Some(to) ==> to.get(tab_id)
                        == if store::in_workspace(workspace_id, tab_id) {
                        None
                    } else {
                        store.get(tab_id)
                    });
                },
                _ => {},
            }
        },
        Reply::TabRead(Ok(tab)) => match runtime.phase {
            PhaseView::ReadingKnown { tab_id: id, rest } => {
                lemma_applied_does_what_is_decided(runtime, id, tab, None, rest);
            },
            PhaseView::ReadingPaneTab { tab_id: id, title } => {
                lemma_applied_does_what_is_decided(
                    runtime,
                    id,
                    tab,
                    if tab.pane_count == 1 {
                        title
                    } else {
                        None
                    },
                    Seq::empty(),
                );
            },
            PhaseView::ReadingCreated { tab_id: id, label } => {
                lemma_changes(runtime.store->0, id, TabStateView::Pinned { label: None });
            },
            _ => {},
        },
        Reply::TabRead(Err(f)) => {
            if let PhaseView::ReadingKnown { tab_id: id, rest } = runtime.phase {
                lemma_changes(runtime.store->0, id, TabStateView::Pinned { label: None });
                lemma_visited_goes_on(runtime, runtime.noted(Err(f@)), rest, Some(f@));
                if runtime.store->0.get(id) is None {
                    assert(RuntimeView { store: Some(runtime.store->0.removed(id)), ..runtime }
                        == runtime);
                    lemma_visited_goes_on(runtime, runtime, rest, None);
                }
            }
        },
        Reply::Flushed(_) => {
            lemma_kept(runtime, reply);
        },
        Reply::Renamed(_) => {
            lemma_kept(runtime, reply);
        },
        _ => {},
    }
}

proof fn lemma_kept(runtime: RuntimeView, reply: Reply)
    requires
        runtime_laws::sound(runtime),
        runtime_laws::answers(runtime, reply),
        reply is Flushed || reply is Renamed,
    ensures
        runtime_laws::resumed(runtime, reply).0.store matches Some(store) ==> Some(store)
            == runtime.store,
{
    match reply {
        Reply::Flushed(Ok(_)) => {
            lemma_visited_goes_on(runtime, runtime, runtime.phase->Flushing_rest, None);
        },
        Reply::Flushed(Err(f)) => {
            lemma_visited_goes_on(
                runtime,
                runtime.noted(Err(f)),
                runtime.phase->Flushing_rest,
                Some(f),
            );
        },
        Reply::Renamed(Ok(_)) => {
            lemma_visited_goes_on(runtime, runtime, runtime.phase->Renaming_rest, None);
        },
        Reply::Renamed(Err(f)) => {
            lemma_visited_goes_on(
                runtime,
                runtime.noted(Err(f)),
                runtime.phase->Renaming_rest,
                Some(f),
            );
        },
        _ => {},
    }
}

} // verus!
