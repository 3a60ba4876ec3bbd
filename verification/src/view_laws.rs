//! That the views of values leave nothing out.

use std::collections::VecDeque;

use vstd::prelude::*;
use vstd::string::*;

use crate::failure::Failure;
use crate::policy;
use crate::policy::{Action, ActionView, TabState, TabStateView};
use crate::runtime;
use crate::runtime::{Job, JobView, Phase, PhaseView, Request, RequestView};
use crate::store::Store;
use crate::text;

verus! {

/// A row of strings has a text for each string, in the same place and with all its
/// characters; and an optional text is there with its string.
pub proof fn law_texts_are_whole(strings: Seq<String>, string: String, slice: &str)
    ensures
        text::texts(strings).len() == strings.len(),
        forall|i: int| 0 <= i < strings.len() ==> text::texts(strings)[i] == #[trigger] strings[i]@,
        text::optional_text(Some(string)) == Some(string@),
        text::optional_text(None) is None,
        text::optional_slice(Some(slice)) == Some(slice@),
        text::optional_slice(None) is None,
{
}

/// The view of a state holds all of its labels, in order, and all their characters.
pub proof fn law_state_views_are_whole(labels: VecDeque<String>, label: String, state: TabState)
    ensures
        (TabState::Tracking { labels })@ matches TabStateView::Tracking { labels: row } && {
            &&& row.len() == labels@.len()
            &&& forall|i: int| 0 <= i < row.len() ==> row[i] == #[trigger] labels@[i]@
        },
        (TabState::Pinned { label: Some(label) })@ == (TabStateView::Pinned {
            label: Some(label@),
        }),
        (TabState::Pinned { label: None })@ == (TabStateView::Pinned { label: None }),
        policy::optional_state(Some(&state)) == Some(state@),
        policy::optional_state(None) is None,
{
}

/// The view of an action holds its state and its whole label.
pub proof fn law_action_views_are_whole(to: String, state: TabState)
    ensures
        Action::Nothing@ == ActionView::Nothing,
        Action::Save(state)@ == ActionView::Save(state@),
        (Action::Rename { to, state })@ == (ActionView::Rename { to: to@, state: state@ }),
{
}

/// The view of a job holds whole names.
pub proof fn law_job_views_are_whole(id: String, label: String, jobs: Seq<Job>)
    ensures
        (Job::Pane { pane_id: id })@ == (JobView::Pane { pane_id: id@ }),
        (Job::Known { tab_id: id })@ == (JobView::Known { tab_id: id@ }),
        (Job::Workspace { workspace_id: id })@ == (JobView::Workspace { workspace_id: id@ }),
        (Job::Created { tab_id: id, label })@ == (JobView::Created {
            tab_id: id@,
            label: label@,
        }),
        (Job::CloseTab { tab_id: id })@ == (JobView::CloseTab { tab_id: id@ }),
        (Job::CloseWorkspace { workspace_id: id })@ == (JobView::CloseWorkspace {
            workspace_id: id@,
        }),
        Job::Survey@ == JobView::Survey,
        runtime::job_views(jobs).len() == jobs.len(),
        forall|i: int| 0 <= i < jobs.len() ==> runtime::job_views(jobs)[i] == #[trigger] jobs[i]@,
{
}

/// The view of a request holds whole names, the whole label, and the failure as it is.
pub proof fn law_request_views_are_whole(
    renew_deadline: bool,
    id: String,
    to: String,
    failure: Failure,
)
    ensures
        (Request::Open { renew_deadline })@ == (RequestView::Open { renew_deadline }),
        (Request::ReadPane { pane_id: id })@ == (RequestView::ReadPane { pane_id: id@ }),
        (Request::ReadTab { tab_id: id })@ == (RequestView::ReadTab { tab_id: id@ }),
        Request::Flush@ == RequestView::Flush,
        (Request::Rename { tab_id: id, to })@ == (RequestView::Rename { tab_id: id@, to: to@ }),
        Request::Finish(Ok(()))@ == RequestView::Finish(Ok(())),
        Request::Finish(Err(failure))@ == RequestView::Finish(Err(failure@)),
{
}

/// The view of what a runtime waits for holds whole names, labels and rows.
pub proof fn law_phase_views_are_whole(
    job: Job,
    id: String,
    label: String,
    title: Option<String>,
    rest: Vec<String>,
)
    ensures
        Phase::Idle@ == PhaseView::Idle,
        (Phase::Opening { job })@ == (PhaseView::Opening { job: job@ }),
        Phase::ReadingPane@ == PhaseView::ReadingPane,
        (Phase::ReadingPaneTab { tab_id: id, title })@ == (PhaseView::ReadingPaneTab {
            tab_id: id@,
            title: text::optional_text(title),
        }),
        (Phase::ReadingKnown { tab_id: id, rest })@ == (PhaseView::ReadingKnown {
            tab_id: id@,
            rest: text::texts(rest@),
        }),
        (Phase::ReadingCreated { tab_id: id, label })@ == (PhaseView::ReadingCreated {
            tab_id: id@,
            label: label@,
        }),
        (Phase::Flushing { rename: Some((id, label)), rest })@ == (PhaseView::Flushing {
            rename: Some((id@, label@)),
            rest: text::texts(rest@),
        }),
        (Phase::Flushing { rename: None, rest })@ == (PhaseView::Flushing {
            rename: None,
            rest: text::texts(rest@),
        }),
        (Phase::Renaming { rest })@ == (PhaseView::Renaming { rest: text::texts(rest@) }),
{
}

/// The view of a failure or a store that there may be is there with it, and holds it all.
pub proof fn law_optional_views_are_whole(failure: Failure, store: Store)
    ensures
        runtime::optional_failure(Some(failure)) == Some(failure@),
        runtime::optional_failure(None) is None,
        runtime::optional_store(Some(store)) == Some(store@),
        runtime::optional_store(None) is None,
{
}

/// Herdr is asked for a pane or a tab by its whole name, and a tab is renamed, by its whole
/// name, to the whole label; nothing else is a command.
pub proof fn law_commands_name_what_they_are_about(id: Seq<char>, to: Seq<char>)
    ensures
        runtime::command_arguments(RequestView::ReadPane { pane_id: id }) == Some(
            seq![seq!['p', 'a', 'n', 'e'], seq!['g', 'e', 't'], id],
        ),
        runtime::command_arguments(RequestView::ReadTab { tab_id: id }) == Some(
            seq![seq!['t', 'a', 'b'], seq!['g', 'e', 't'], id],
        ),
        runtime::command_arguments(RequestView::Rename { tab_id: id, to }) == Some(
            seq![seq!['t', 'a', 'b'], seq!['r', 'e', 'n', 'a', 'm', 'e'], id, to],
        ),
        runtime::command_arguments(RequestView::Flush) is None,
        runtime::command_arguments(RequestView::Open { renew_deadline: true }) is None,
        runtime::command_arguments(RequestView::Open { renew_deadline: false }) is None,
        runtime::command_arguments(RequestView::Finish(Ok(()))) is None,
{
    reveal_strlit("pane");
    reveal_strlit("tab");
    reveal_strlit("get");
    reveal_strlit("rename");
    assert("pane"@ =~= seq!['p', 'a', 'n', 'e']);
    assert("tab"@ =~= seq!['t', 'a', 'b']);
    assert("get"@ =~= seq!['g', 'e', 't']);
    assert("rename"@ =~= seq!['r', 'e', 'n', 'a', 'm', 'e']);
}

} // verus!
