//! What holds of the work on every event, whatever becomes of the requests.

use vstd::prelude::*;

use crate::failure;
use crate::failure::{Failure, FailureView};
use crate::policy;
use crate::policy::{ActionView, TabStateView};
use crate::policy_laws;
use crate::runtime;
use crate::runtime::{
    EventData, JobView, Pane, PhaseView, RequestView, RuntimeView, Step, Tab,
};
use crate::store;
use crate::store::{Sessions, StoreView};
use crate::store_laws;

verus! {

/// What became of a request.
pub enum Reply {
    Opened(Result<Sessions, FailureView>),
    PaneRead(Result<Pane, Failure>),
    TabRead(Result<Tab, Failure>),
    Flushed(Result<(), FailureView>),
    Renamed(Result<(), FailureView>),
}

/// Whether a reply is one that a runtime waits for.
pub open spec fn answers(runtime: RuntimeView, reply: Reply) -> bool {
    match reply {
        Reply::Opened(_) => runtime.phase is Opening,
        Reply::PaneRead(_) => runtime.phase is ReadingPane,
        Reply::TabRead(_) => runtime.phase is ReadingPaneTab || runtime.phase is ReadingKnown
            || runtime.phase is ReadingCreated,
        Reply::Flushed(_) => runtime.phase is Flushing,
        Reply::Renamed(_) => runtime.phase is Renaming,
    }
}

/// What a reply leads to.
pub open spec fn resumed(runtime: RuntimeView, reply: Reply) -> Step {
    match reply {
        Reply::Opened(result) => runtime.opened(result),
        Reply::PaneRead(result) => runtime.pane_read(result),
        Reply::TabRead(result) => runtime.tab_read(result),
        Reply::Flushed(result) => runtime.flushed(result),
        Reply::Renamed(result) => runtime.renamed(result),
    }
}

/// The failure that a reply tells of.
pub open spec fn failure_in(reply: Reply) -> Option<FailureView> {
    match reply {
        Reply::Opened(Err(f)) => Some(f),
        Reply::PaneRead(Err(f)) => Some(f@),
        Reply::TabRead(Err(f)) => Some(f@),
        Reply::Flushed(Err(f)) => Some(f),
        Reply::Renamed(Err(f)) => Some(f),
        _ => None,
    }
}

/// The failure of a reply as far as it counts. That a tab does not exist is an answer, where
/// the tab was asked for because it has a state.
pub open spec fn counted_failure(runtime: RuntimeView, reply: Reply) -> Option<FailureView> {
    match failure_in(reply) {
        Some(f) if runtime.phase is ReadingKnown && failure::tab_not_found(f) => None,
        other => other,
    }
}

/// The stored states that a reply is dealt with on.
pub open spec fn states_before(runtime: RuntimeView, reply: Reply) -> Option<StoreView> {
    match reply {
        Reply::Opened(Ok(sessions)) => Some(StoreView { session: runtime.session, sessions }),
        Reply::Opened(Err(_)) => None,
        _ => runtime.store,
    }
}

/// A step that goes on without a change: the stored states stay as they are, nothing is
/// renamed, and what went wrong first is kept or handed out.
spec fn plain(before: RuntimeView, step: Step) -> bool {
    let (after, request) = step;
    &&& after.session == before.session
    &&& after.valid()
    &&& after.awaits(request)
    &&& !(request is Rename)
    &&& !(request is Flush)
    &&& after.store is None || after.store == before.store
    &&& request is Open || request is Finish ==> after.store is None
    &&& match request {
        RequestView::Finish(Ok(_)) => before.first_error is None,
        RequestView::Finish(Err(f)) => before.first_error == Some(f),
        _ => after.first_error == before.first_error,
    }
}

proof fn lemma_visited_is_plain(runtime: RuntimeView, ids: Seq<Seq<char>>)
    requires
        runtime.store matches Some(s) ==> s.session == runtime.session,
        ids.len() > 0 ==> runtime.store is Some,
    ensures
        plain(runtime, runtime.visited(ids)),
    decreases ids.len(),
{
    if ids.len() > 0 && runtime.store->0.get(ids.first()) is None {
        lemma_visited_is_plain(runtime, ids.drop_first());
    }
}

/// Whether the renaming that follows once the stored states are on disk is to a label that
/// they recognise.
pub open spec fn sound(runtime: RuntimeView) -> bool {
    &&& runtime.valid()
    &&& runtime.phase matches PhaseView::Flushing { rename: Some((tab_id, to)), .. } ==> {
        &&& runtime.store->0.get(tab_id) is Some
        &&& policy_laws::recognised(runtime.store->0.get(tab_id)->0, to)
    }
}

/// What a step may do to the stored states and say outside, from the states that it began
/// with.
spec fn orderly(before: RuntimeView, from: StoreView, step: Step) -> bool {
    let (after, request) = step;
    &&& after.session == before.session
    &&& sound(after)
    &&& after.awaits(request)
    &&& request matches RequestView::Rename { tab_id, to } ==> {
        &&& after.store == Some(from)
        &&& from.get(tab_id) is Some
        &&& policy_laws::recognised(from.get(tab_id)->0, to)
    }
    &&& after.store is None || after.store == Some(from) || request is Flush
    &&& request is Open || request is Finish ==> after.store is None
    &&& request is Flush ==> {
        &&& after.store is Some
        &&& same_elsewhere(from, after.store->0)
    }
    &&& match request {
        RequestView::Finish(Ok(_)) => before.first_error is None,
        RequestView::Finish(Err(f)) => before.first_error == Some(f),
        _ => after.first_error == before.first_error,
    }
}

/// Whether two states of the store differ in one session at most.
pub open spec fn same_elsewhere(a: StoreView, b: StoreView) -> bool {
    &&& a.session == b.session
    &&& forall|other: Seq<char>|
        other != a.session ==> {
            &&& #[trigger] b.sessions.contains_key(other) == a.sessions.contains_key(other)
            &&& store::tabs_in(b.sessions, other) == store::tabs_in(a.sessions, other)
        }
}

proof fn lemma_changes_stay_in_the_session(
    store: StoreView,
    tab: Seq<char>,
    state: TabStateView,
    workspace: Seq<char>,
)
    ensures
        same_elsewhere(store, store.saved(tab, state)),
        same_elsewhere(store, store.removed(tab)),
        same_elsewhere(store, store.workspace_removed(workspace)),
{
}

proof fn lemma_removing_is_orderly(
    runtime: RuntimeView,
    tab: Seq<char>,
    rest: Seq<Seq<char>>,
)
    requires
        runtime.valid(),
        runtime.store is Some,
    ensures
        orderly(runtime, runtime.store->0, runtime.tab_removed(tab, rest)),
{
    let from = runtime.store->0;
    lemma_changes_stay_in_the_session(
        from,
        tab,
        TabStateView::Pinned { label: None },
        Seq::empty(),
    );
    if from.get(tab) is None {
        assert(RuntimeView { store: Some(from.removed(tab)), ..runtime } == runtime);
    }
    lemma_visited_is_plain(runtime, rest);
}

proof fn lemma_applying_is_orderly(
    runtime: RuntimeView,
    tab_id: Seq<char>,
    tab: Tab,
    title: Option<Seq<char>>,
    rest: Seq<Seq<char>>,
)
    requires
        runtime.valid(),
        runtime.store is Some,
    ensures
        orderly(runtime, runtime.store->0, runtime.applied(tab_id, tab, title, rest)),
{
    let from = runtime.store->0;
    let known = from.get(tab_id);
    let next = policy_laws::next_of(known, tab.label@, title);
    lemma_visited_is_plain(runtime, rest);
    policy_laws::law_kept_state_recognises_both_labels(
        known,
        tab.label@,
        title,
        tab.agent_status,
    );
    policy_laws::law_label_shows_the_status(known, tab.label@, title, tab.agent_status);
    lemma_changes_stay_in_the_session(from, tab_id, next, Seq::empty());
    store_laws::law_saved_tab_reads_back(from, tab_id, next, tab_id);
    if known == Some(next) {
        lemma_saving_again(from, tab_id, next);
        assert(RuntimeView { store: Some(from.saved(tab_id, next)), ..runtime } == runtime);
    }
}

/// Saving the state that a tab has changes nothing.
pub proof fn lemma_saving_again(store: StoreView, tab: Seq<char>, state: TabStateView)
    requires
        store.get(tab) == Some(state),
    ensures
        store.saved(tab, state) == store,
{
    let tabs = store::tabs_in(store.sessions, store.session);
    assert(tabs.insert(tab, state) =~= tabs);
    assert(store.saved(tab, state).sessions =~= store.sessions);
}

proof fn lemma_starting_is_orderly(runtime: RuntimeView, job: JobView)
    requires
        runtime.store is Some,
        runtime.store->0.session == runtime.session,
    ensures
        orderly(runtime, runtime.store->0, runtime.started(job)),
{
    let from = runtime.store->0;
    match job {
        JobView::Known { tab_id } => {
            lemma_visited_is_plain(runtime, seq![tab_id]);
        },
        JobView::Workspace { workspace_id } => {
            lemma_visited_is_plain(runtime, from.tab_ids_in_workspace(workspace_id));
        },
        JobView::CloseTab { tab_id } => {
            lemma_removing_is_orderly(runtime, tab_id, Seq::empty());
        },
        JobView::CloseWorkspace { workspace_id } => {
            lemma_changes_stay_in_the_session(
                from,
                Seq::empty(),
                TabStateView::Pinned { label: None },
                workspace_id,
            );
            if !store::has_workspace(from.sessions, from.session, workspace_id) {
                assert(RuntimeView {
                    store: Some(from.workspace_removed(workspace_id)),
                    ..runtime
                } == runtime);
            }
            lemma_visited_is_plain(runtime, Seq::empty());
        },
        _ => {},
    }
}

/// A reply is dealt with in an orderly step, once what it says went wrong is noted.
proof fn lemma_step_is_orderly(runtime: RuntimeView, reply: Reply)
    requires
        sound(runtime),
        answers(runtime, reply),
    ensures
        ({
            let noted = match counted_failure(runtime, reply) {
                Some(f) => runtime.noted(Err(f)),
                None => runtime,
            };
            match states_before(runtime, reply) {
                Some(from) => orderly(noted, from, resumed(runtime, reply)),
                None => plain(noted, resumed(runtime, reply)),
            }
        }),
{
    let noted = match counted_failure(runtime, reply) {
        Some(f) => runtime.noted(Err(f)),
        None => runtime,
    };
    match reply {
        Reply::Opened(Ok(sessions)) => {
            let with_store = RuntimeView {
                store: Some(StoreView { session: runtime.session, sessions }),
                ..runtime
            };
            lemma_starting_is_orderly(with_store, runtime.phase->job);
        },
        Reply::TabRead(result) => match (runtime.phase, result) {
            (PhaseView::ReadingPaneTab { tab_id, title }, Ok(tab)) => {
                lemma_applying_is_orderly(
                    runtime,
                    tab_id,
                    tab,
                    if tab.pane_count == 1 {
                        title
                    } else {
                        None
                    },
                    Seq::empty(),
                );
            },
            (PhaseView::ReadingKnown { tab_id, rest }, Ok(tab)) => {
                lemma_applying_is_orderly(runtime, tab_id, tab, None, rest);
            },
            (PhaseView::ReadingKnown { tab_id, rest }, Err(f)) => {
                lemma_removing_is_orderly(runtime, tab_id, rest);
                lemma_visited_is_plain(noted, rest);
            },
            (PhaseView::ReadingCreated { tab_id, label }, Ok(tab)) => {
                lemma_removing_is_orderly(runtime, tab_id, Seq::empty());
            },
            _ => {},
        },
        Reply::Flushed(result) => {
            lemma_visited_is_plain(noted, runtime.phase->Flushing_rest);
        },
        Reply::Renamed(result) => {
            lemma_visited_is_plain(noted, runtime.phase->Renaming_rest);
        },
        _ => {},
    }
}

/// A runtime stays with its session.
pub proof fn lemma_session_stays(runtime: RuntimeView, reply: Reply)
    requires
        sound(runtime),
        answers(runtime, reply),
    ensures
        resumed(runtime, reply).0.session == runtime.session,
{
    lemma_step_is_orderly(runtime, reply);
}

/// However a runtime was left, the work on an event begins with it waiting for what it asks
/// for, without the lock on the stored states: it asks for that first, or has nothing to do.
pub proof fn law_event_begins_without_the_lock(runtime: RuntimeView, jobs: Seq<JobView>)
    ensures
        ({
            let (after, request) = runtime.begun(jobs);
            &&& sound(after)
            &&& after.awaits(request)
            &&& after.store is None
            &&& request is Open || request is Finish
        }),
{
}

/// After every reply a runtime waits for what it asks for next, and has the stored states at
/// hand wherever it needs them.
pub proof fn law_runtime_awaits_its_request(runtime: RuntimeView, reply: Reply)
    requires
        sound(runtime),
        answers(runtime, reply),
    ensures
        ({
            let (after, request) = resumed(runtime, reply);
            sound(after) && after.awaits(request)
        }),
{
    lemma_step_is_orderly(runtime, reply);
}

/// Herdr is asked, the stored states are written, and a tab is renamed only while the lock
/// on the stored states is held; and it is let go of before they are read again, and at the
/// end.
pub proof fn law_work_is_done_under_the_lock(runtime: RuntimeView, reply: Reply)
    requires
        sound(runtime),
        answers(runtime, reply),
    ensures
        ({
            let (after, request) = resumed(runtime, reply);
            after.store is None <==> request is Open || request is Finish
        }),
{
    lemma_step_is_orderly(runtime, reply);
}

/// No reply has any effect on the stored states of another session, and no change to them
/// goes by without a request to write them to disk.
pub proof fn law_states_change_in_one_session_and_are_written(
    runtime: RuntimeView,
    reply: Reply,
)
    requires
        sound(runtime),
        answers(runtime, reply),
    ensures
        ({
            let (after, request) = resumed(runtime, reply);
            states_before(runtime, reply) matches Some(from) ==> (after.store matches Some(to)
                ==> {
                &&& same_elsewhere(from, to)
                &&& to != from ==> request is Flush
            })
        }),
        states_before(runtime, reply) is None ==> resumed(runtime, reply).0.store is None,
{
    lemma_step_is_orderly(runtime, reply);
}

/// The states that are written to disk are the ones that later work on an event of the same
/// session begins with, in whatever process.
pub proof fn law_stored_states_are_found_again(runtime: RuntimeView, later: RuntimeView)
    requires
        runtime.valid(),
        runtime.store is Some,
        later.session == runtime.session,
    ensures
        states_before(later, Reply::Opened(Ok(runtime.store->0.sessions))) == runtime.store,
{
}

/// A tab is renamed only when it has a state that recognises the new label, and not before
/// the states at hand have been written to disk, where the state of the tab was changed.
pub proof fn law_tab_is_renamed_only_after_its_state_is_stored(
    runtime: RuntimeView,
    reply: Reply,
)
    requires
        sound(runtime),
        answers(runtime, reply),
    ensures
        resumed(runtime, reply).1 matches RequestView::Rename { tab_id, to } ==> {
            &&& runtime.store is Some
            &&& resumed(runtime, reply).0.store == runtime.store
            &&& runtime.store->0.get(tab_id) is Some
            &&& policy_laws::recognised(runtime.store->0.get(tab_id)->0, to)
            &&& reply is TabRead || reply is Flushed && failure_in(reply) is None
        },
{
    lemma_step_is_orderly(runtime, reply);
    match reply {
        Reply::Opened(Ok(sessions)) => {
            lemma_start_renames_nothing(
                RuntimeView {
                    store: Some(StoreView { session: runtime.session, sessions }),
                    ..runtime
                },
                runtime.phase->job,
            );
        },
        Reply::Flushed(Err(f)) => {
            lemma_visited_is_plain(runtime.noted(Err(f)), runtime.phase->Flushing_rest);
        },
        Reply::Renamed(result) => {
            lemma_visited_is_plain(runtime.noted(result), runtime.phase->Renaming_rest);
        },
        _ => {},
    }
}

proof fn lemma_start_renames_nothing(runtime: RuntimeView, job: JobView)
    requires
        runtime.store is Some,
        runtime.store->0.session == runtime.session,
    ensures
        !(runtime.started(job).1 is Rename),
{
    let from = runtime.store->0;
    match job {
        JobView::Known { tab_id } => {
            lemma_visited_is_plain(runtime, seq![tab_id]);
        },
        JobView::Workspace { workspace_id } => {
            lemma_visited_is_plain(runtime, from.tab_ids_in_workspace(workspace_id));
        },
        _ => {},
    }
}

/// What goes wrong first is what the event ends with, however it goes on: the failure is
/// kept until the end, and none is made up.
pub proof fn law_first_failure_is_reported(runtime: RuntimeView, reply: Reply)
    requires
        sound(runtime),
        answers(runtime, reply),
    ensures
        ({
            let (after, request) = resumed(runtime, reply);
            let first = match runtime.first_error {
                Some(f) => Some(f),
                None => counted_failure(runtime, reply),
            };
            match request {
                RequestView::Finish(Ok(_)) => first is None,
                RequestView::Finish(Err(f)) => first == Some(f),
                _ => after.first_error == first,
            }
        }),
{
    lemma_step_is_orderly(runtime, reply);
}

/// How far a runtime is from the end: whether it still has to find the tabs, the jobs that
/// are left, the tabs that are left of the job, and the requests that are left of the tab.
pub open spec fn distance(runtime: RuntimeView) -> (nat, nat, nat, nat) {
    let survey: nat = if runtime.phase == (PhaseView::Opening { job: JobView::Survey }) {
        1
    } else {
        0
    };
    let jobs: nat = 2 * runtime.jobs.len() + if runtime.phase is Opening {
        1nat
    } else {
        0nat
    };
    let (tabs, requests): (nat, nat) = match runtime.phase {
        PhaseView::Idle => (0, 0),
        PhaseView::Opening { .. } => (0, 0),
        PhaseView::ReadingPane => (0, 4),
        PhaseView::ReadingPaneTab { .. } => (0, 3),
        PhaseView::ReadingKnown { rest, .. } => (rest.len(), 3),
        PhaseView::ReadingCreated { .. } => (0, 3),
        PhaseView::Flushing { rest, .. } => (rest.len(), 2),
        PhaseView::Renaming { rest } => (rest.len(), 1),
    };
    (survey, jobs, tabs, requests)
}

/// Whether one distance is less than another.
pub open spec fn closer(a: (nat, nat, nat, nat), b: (nat, nat, nat, nat)) -> bool {
    ||| a.0 < b.0
    ||| a.0 == b.0 && a.1 < b.1
    ||| a.0 == b.0 && a.1 == b.1 && a.2 < b.2
    ||| a.0 == b.0 && a.1 == b.1 && a.2 == b.2 && a.3 < b.3
}

/// Whether no job that is left looks for tabs.
pub open spec fn surveyed(runtime: RuntimeView) -> bool {
    forall|i: int| 0 <= i < runtime.jobs.len() ==> !(#[trigger] runtime.jobs[i] is Survey)
}

proof fn lemma_visited_is_closer(runtime: RuntimeView, ids: Seq<Seq<char>>, tabs: nat)
    requires
        surveyed(runtime),
        ids.len() <= tabs,
    ensures
        ({
            let after = runtime.visited(ids).0;
            &&& surveyed(after)
            &&& closer(distance(after), (0, 2 * runtime.jobs.len(), tabs, 1))
        }),
    decreases ids.len(),
{
    if ids.len() == 0 {
        lemma_next_job_is_closer(runtime);
    } else if runtime.store->0.get(ids.first()) is None {
        lemma_visited_is_closer(runtime, ids.drop_first(), tabs);
    }
}

proof fn lemma_next_job_is_closer(runtime: RuntimeView)
    requires
        surveyed(runtime),
    ensures
        surveyed(runtime.next_job().0),
        runtime.jobs.len() > 0 ==> closer(
            distance(runtime.next_job().0),
            (0, 2 * runtime.jobs.len(), 0, 0),
        ),
        runtime.jobs.len() == 0 ==> distance(runtime.next_job().0) == (0nat, 0nat, 0nat, 0nat),
{
    if runtime.jobs.len() > 0 {
        assert(!(runtime.jobs[0] is Survey));
        let after = runtime.next_job().0;
        assert forall|i: int| 0 <= i < after.jobs.len() implies !(
        #[trigger] after.jobs[i] is Survey) by {
            assert(after.jobs[i] == runtime.jobs[i + 1]);
        }
    }
}

proof fn lemma_stored_is_closer(
    runtime: RuntimeView,
    store: StoreView,
    changed: bool,
    rename: Option<(Seq<char>, Seq<char>)>,
    rest: Seq<Seq<char>>,
)
    requires
        surveyed(runtime),
    ensures
        ({
            let after = runtime.stored(store, changed, rename, rest).0;
            &&& surveyed(after)
            &&& closer(distance(after), (0, 2 * runtime.jobs.len(), rest.len(), 3))
        }),
{
    lemma_visited_is_closer(RuntimeView { store: Some(store), ..runtime }, rest, rest.len());
}

/// Every event begins with no job left that looks for tabs, and so does a start, which looks
/// for them at once.
pub proof fn law_event_begins_surveyed(runtime: RuntimeView, event: EventData)
    ensures
        surveyed(runtime.begun(runtime::jobs_of(event)).0),
        surveyed(runtime.begun(seq![JobView::Survey]).0),
{
}

/// Every reply brings an event nearer to its end, so that every event comes to one: nothing
/// is asked for over and over.
pub proof fn law_every_reply_brings_the_end_nearer(runtime: RuntimeView, reply: Reply)
    requires
        answers(runtime, reply),
        surveyed(runtime),
    ensures
        surveyed(resumed(runtime, reply).0),
        closer(distance(resumed(runtime, reply).0), distance(runtime)),
{
    lemma_next_job_is_closer(runtime);
    let none = Seq::<Seq<char>>::empty();
    match reply {
        Reply::Opened(Ok(sessions)) => {
            let with_store = RuntimeView {
                store: Some(StoreView { session: runtime.session, sessions }),
                ..runtime
            };
            lemma_start_is_closer(with_store, runtime.phase->job);
        },
        Reply::Opened(Err(f)) => {
            lemma_next_job_is_closer(runtime.noted(Err(f)));
        },
        Reply::PaneRead(Err(f)) => {
            lemma_next_job_is_closer(runtime.noted(Err(f@)));
        },
        Reply::PaneRead(Ok(_)) => {},
        Reply::TabRead(result) => match (runtime.phase, result) {
            (PhaseView::ReadingPaneTab { tab_id, title }, Ok(tab)) => {
                let counted = if tab.pane_count == 1 {
                    title
                } else {
                    None
                };
                lemma_applied_is_closer(runtime, tab_id, tab, counted, none);
            },
            (PhaseView::ReadingKnown { tab_id, rest }, Ok(tab)) => {
                lemma_applied_is_closer(runtime, tab_id, tab, None, rest);
            },
            (PhaseView::ReadingKnown { tab_id, rest }, Err(f)) => {
                let store = runtime.store->0;
                lemma_stored_is_closer(
                    runtime,
                    store.removed(tab_id),
                    store.get(tab_id) is Some,
                    None,
                    rest,
                );
                lemma_visited_is_closer(runtime.noted(Err(f@)), rest, rest.len());
            },
            (PhaseView::ReadingCreated { tab_id, label }, Ok(tab)) => {
                let store = runtime.store->0;
                lemma_stored_is_closer(
                    runtime,
                    store.removed(tab_id),
                    store.get(tab_id) is Some,
                    None,
                    none,
                );
            },
            (_, Err(f)) => {
                lemma_next_job_is_closer(runtime.noted(Err(f@)));
            },
            _ => {},
        },
        Reply::Flushed(result) => {
            let rest = runtime.phase->Flushing_rest;
            lemma_visited_is_closer(runtime, rest, rest.len());
            lemma_visited_is_closer(runtime.noted(result), rest, rest.len());
        },
        Reply::Renamed(result) => {
            let rest = runtime.phase->Renaming_rest;
            lemma_visited_is_closer(runtime.noted(result), rest, rest.len());
        },
    }
}

proof fn lemma_applied_is_closer(
    runtime: RuntimeView,
    tab_id: Seq<char>,
    tab: Tab,
    title: Option<Seq<char>>,
    rest: Seq<Seq<char>>,
)
    requires
        surveyed(runtime),
    ensures
        ({
            let after = runtime.applied(tab_id, tab, title, rest).0;
            &&& surveyed(after)
            &&& closer(distance(after), (0, 2 * runtime.jobs.len(), rest.len(), 3))
        }),
{
    let store = runtime.store->0;
    match policy::decided(store.get(tab_id), tab.label@, title, tab.agent_status) {
        ActionView::Nothing => {
            lemma_visited_is_closer(runtime, rest, rest.len());
        },
        ActionView::Save(state) => {
            lemma_stored_is_closer(
                runtime,
                store.saved(tab_id, state),
                store.get(tab_id) != Some(state),
                None,
                rest,
            );
        },
        ActionView::Rename { to, state } => {
            lemma_stored_is_closer(
                runtime,
                store.saved(tab_id, state),
                store.get(tab_id) != Some(state),
                Some((tab_id, to)),
                rest,
            );
        },
    }
}

proof fn lemma_start_is_closer(runtime: RuntimeView, job: JobView)
    requires
        surveyed(runtime),
    ensures
        ({
            let after = runtime.started(job).0;
            &&& surveyed(after)
            &&& if job is Survey {
                distance(after).0 == 0
            } else {
                closer(distance(after), (0, 2 * runtime.jobs.len() + 1, 0, 0))
            }
        }),
{
    let store = runtime.store->0;
    let none = Seq::<Seq<char>>::empty();
    lemma_next_job_is_closer(runtime);
    match job {
        JobView::Known { tab_id } => {
            lemma_visited_is_closer(runtime, seq![tab_id], 1);
        },
        JobView::Workspace { workspace_id } => {
            let ids = store.tab_ids_in_workspace(workspace_id);
            lemma_visited_is_closer(runtime, ids, ids.len());
        },
        JobView::CloseTab { tab_id } => {
            lemma_stored_is_closer(
                runtime,
                store.removed(tab_id),
                store.get(tab_id) is Some,
                None,
                none,
            );
        },
        JobView::CloseWorkspace { workspace_id } => {
            lemma_stored_is_closer(
                runtime,
                store.workspace_removed(workspace_id),
                store::has_workspace(store.sessions, store.session, workspace_id),
                None,
                none,
            );
        },
        JobView::Survey => {
            let found = Seq::new(
                store.tab_ids().len(),
                |i: int| JobView::Known { tab_id: store.tab_ids()[i] },
            );
            let more = RuntimeView { jobs: found + runtime.jobs, renew: true, ..runtime };
            assert forall|i: int| 0 <= i < more.jobs.len() implies !(
            #[trigger] more.jobs[i] is Survey) by {
                if i >= found.len() {
                    assert(more.jobs[i] == runtime.jobs[i - found.len()]);
                }
            }
            lemma_next_job_is_closer(more);
        },
        _ => {},
    }
}

} // verus!
