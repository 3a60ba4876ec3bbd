//! What an event leads to: which questions Herdr is asked, what is stored, and which tab is
//! renamed, one step after the other.
//!
//! A [`Runtime`] does nothing outside by itself. It hands out a [`Request`], and is told
//! through one of its functions what became of it, which gives the next request, up to
//! [`Request::Finish`].

use vstd::prelude::*;

use crate::failure;
use crate::failure::{is_tab_not_found, Failure, FailureView};
use crate::policy;
use crate::policy::{decide, Action, ActionView, AgentStatus};
use crate::store;
use crate::store::{Loaded, Sessions, Store, StoreView};
use crate::text;
use crate::text::same_text;

verus! {

/// A tab as the event of its creation describes it.
#[derive(Debug, PartialEq, Eq)]
pub struct EventTab {
    pub tab_id: String,
    pub label: String,
}

/// A pane as the event of its move describes it.
#[derive(Debug, PartialEq, Eq)]
pub struct EventPane {
    pub pane_id: String,
    pub tab_id: String,
}

/// What has taken place in Herdr.
#[derive(Debug, PartialEq, Eq)]
pub enum EventData {
    PaneAgentStatusChanged { pane_id: String },
    TabCreated { tab: EventTab },
    TabFocused { tab_id: String },
    TabRenamed { tab_id: String },
    PaneMoved { previous_tab_id: String, pane: EventPane },
    PaneClosed { workspace_id: String },
    TabClosed { tab_id: String },
    WorkspaceClosed { workspace_id: String },
    Other,
}

/// A pane as Herdr describes it.
#[derive(Debug, PartialEq, Eq)]
pub struct Pane {
    pub agent: Option<String>,
    pub tab_id: String,
    pub terminal_title_stripped: Option<String>,
}

/// A tab as Herdr describes it.
#[derive(Debug, PartialEq, Eq)]
pub struct Tab {
    pub label: String,
    pub pane_count: u32,
    pub agent_status: AgentStatus,
}

/// Something to be done under one lock on the stored states.
pub enum Job {
    /// Bring the tab of a pane up to date, with the title of the pane.
    Pane { pane_id: String },
    /// Bring a tab up to date, where it has a state.
    Known { tab_id: String },
    /// Bring the tabs of a workspace up to date that have a state.
    Workspace { workspace_id: String },
    /// Forget a tab that is new under a name that has a state.
    Created { tab_id: String, label: String },
    /// Forget a tab.
    CloseTab { tab_id: String },
    /// Forget the tabs of a workspace.
    CloseWorkspace { workspace_id: String },
    /// Find the tabs that have a state, to bring each up to date.
    Survey,
}

/// A [`Job`] as sequences of characters.
pub enum JobView {
    Pane { pane_id: Seq<char> },
    Known { tab_id: Seq<char> },
    Workspace { workspace_id: Seq<char> },
    Created { tab_id: Seq<char>, label: Seq<char> },
    CloseTab { tab_id: Seq<char> },
    CloseWorkspace { workspace_id: Seq<char> },
    Survey,
}

impl View for Job {
    type V = JobView;

    open spec fn view(&self) -> JobView {
        match self {
            Job::Pane { pane_id } => JobView::Pane { pane_id: pane_id@ },
            Job::Known { tab_id } => JobView::Known { tab_id: tab_id@ },
            Job::Workspace { workspace_id } => JobView::Workspace { workspace_id: workspace_id@ },
            Job::Created { tab_id, label } => JobView::Created {
                tab_id: tab_id@,
                label: label@,
            },
            Job::CloseTab { tab_id } => JobView::CloseTab { tab_id: tab_id@ },
            Job::CloseWorkspace { workspace_id } => JobView::CloseWorkspace {
                workspace_id: workspace_id@,
            },
            Job::Survey => JobView::Survey,
        }
    }
}

/// A row of jobs as sequences of characters.
pub open spec fn job_views(jobs: Seq<Job>) -> Seq<JobView> {
    Seq::new(jobs.len(), |i: int| jobs[i]@)
}

/// What is to be done outside next.
#[derive(Debug, PartialEq, Eq)]
pub enum Request {
    /// Let go of the lock on the stored states, where it is held, then take it and read
    /// them. The time for the event begins anew or not.
    Open { renew_deadline: bool },
    /// Ask Herdr for a pane.
    ReadPane { pane_id: String },
    /// Ask Herdr for a tab.
    ReadTab { tab_id: String },
    /// Write the stored states to disk.
    Flush,
    /// Have Herdr rename a tab.
    Rename { tab_id: String, to: String },
    /// Let go of the lock, where it is held: all is done, or this went wrong first.
    Finish(Result<(), Failure>),
}

/// A [`Request`] as sequences of characters.
pub enum RequestView {
    Open { renew_deadline: bool },
    ReadPane { pane_id: Seq<char> },
    ReadTab { tab_id: Seq<char> },
    Flush,
    Rename { tab_id: Seq<char>, to: Seq<char> },
    Finish(Result<(), FailureView>),
}

impl View for Request {
    type V = RequestView;

    open spec fn view(&self) -> RequestView {
        match self {
            Request::Open { renew_deadline } => RequestView::Open {
                renew_deadline: *renew_deadline,
            },
            Request::ReadPane { pane_id } => RequestView::ReadPane { pane_id: pane_id@ },
            Request::ReadTab { tab_id } => RequestView::ReadTab { tab_id: tab_id@ },
            Request::Flush => RequestView::Flush,
            Request::Rename { tab_id, to } => RequestView::Rename { tab_id: tab_id@, to: to@ },
            Request::Finish(result) => RequestView::Finish(failure::outcome(*result)),
        }
    }
}

/// The arguments of the Herdr command that a request stands for.
pub open spec fn command_arguments(request: RequestView) -> Option<Seq<Seq<char>>> {
    match request {
        RequestView::ReadPane { pane_id } => Some(seq!["pane"@, "get"@, pane_id]),
        RequestView::ReadTab { tab_id } => Some(seq!["tab"@, "get"@, tab_id]),
        RequestView::Rename { tab_id, to } => Some(seq!["tab"@, "rename"@, tab_id, to]),
        _ => None,
    }
}

impl Request {
    /// The arguments of the Herdr command that a request stands for.
    pub fn arguments(&self) -> (arguments: Option<Vec<String>>)
        ensures
            match arguments {
                Some(words) => command_arguments(self@) == Some(text::texts(words@)),
                None => command_arguments(self@) is None,
            },
    {
        let mut words: Vec<String> = Vec::new();
        match self {
            Request::ReadPane { pane_id } => {
                words.push("pane".to_owned());
                words.push("get".to_owned());
                words.push(pane_id.clone());
            },
            Request::ReadTab { tab_id } => {
                words.push("tab".to_owned());
                words.push("get".to_owned());
                words.push(tab_id.clone());
            },
            Request::Rename { tab_id, to } => {
                words.push("tab".to_owned());
                words.push("rename".to_owned());
                words.push(tab_id.clone());
                words.push(to.clone());
            },
            _ => {
                return None;
            },
        }
        proof {
            assert(command_arguments(self@)->0 =~= text::texts(words@));
        }
        Some(words)
    }
}

/// What a runtime waits to hear of.
pub enum Phase {
    /// Nothing.
    Idle,
    /// The stored states, for a job.
    Opening { job: Job },
    /// A pane.
    ReadingPane,
    /// The tab of a pane, whose title counts where it is the only pane.
    ReadingPaneTab { tab_id: String, title: Option<String> },
    /// A tab that has a state; the others follow.
    ReadingKnown { tab_id: String, rest: Vec<String> },
    /// A tab that is new, under a label.
    ReadingCreated { tab_id: String, label: String },
    /// That the stored states are on disk; then a tab may have to be renamed, and the others
    /// follow.
    Flushing { rename: Option<(String, String)>, rest: Vec<String> },
    /// That a tab is renamed; the others follow.
    Renaming { rest: Vec<String> },
}

/// A [`Phase`] as sequences of characters.
pub enum PhaseView {
    Idle,
    Opening { job: JobView },
    ReadingPane,
    ReadingPaneTab { tab_id: Seq<char>, title: Option<Seq<char>> },
    ReadingKnown { tab_id: Seq<char>, rest: Seq<Seq<char>> },
    ReadingCreated { tab_id: Seq<char>, label: Seq<char> },
    Flushing { rename: Option<(Seq<char>, Seq<char>)>, rest: Seq<Seq<char>> },
    Renaming { rest: Seq<Seq<char>> },
}

/// The name of a tab and the label to give it, as sequences of characters.
pub open spec fn rename_view(rename: Option<(String, String)>) -> Option<(Seq<char>, Seq<char>)> {
    match rename {
        Some((tab_id, to)) => Some((tab_id@, to@)),
        None => None,
    }
}

impl View for Phase {
    type V = PhaseView;

    open spec fn view(&self) -> PhaseView {
        match self {
            Phase::Idle => PhaseView::Idle,
            Phase::Opening { job } => PhaseView::Opening { job: job@ },
            Phase::ReadingPane => PhaseView::ReadingPane,
            Phase::ReadingPaneTab { tab_id, title } => PhaseView::ReadingPaneTab {
                tab_id: tab_id@,
                title: text::optional_text(*title),
            },
            Phase::ReadingKnown { tab_id, rest } => PhaseView::ReadingKnown {
                tab_id: tab_id@,
                rest: text::texts(rest@),
            },
            Phase::ReadingCreated { tab_id, label } => PhaseView::ReadingCreated {
                tab_id: tab_id@,
                label: label@,
            },
            Phase::Flushing { rename, rest } => PhaseView::Flushing {
                rename: rename_view(*rename),
                rest: text::texts(rest@),
            },
            Phase::Renaming { rest } => PhaseView::Renaming { rest: text::texts(rest@) },
        }
    }
}

/// The work on an event, between a request and what becomes of it.
pub struct Runtime {
    session: String,
    jobs: Vec<Job>,
    renew: bool,
    first_error: Option<Failure>,
    store: Option<Store>,
    phase: Phase,
}

/// A [`Runtime`] as mathematical values.
pub struct RuntimeView {
    /// The session that the events are of.
    pub session: Seq<char>,
    /// The jobs that are left.
    pub jobs: Seq<JobView>,
    /// Whether the time begins anew for each of them.
    pub renew: bool,
    /// What went wrong first.
    pub first_error: Option<FailureView>,
    /// The stored states, while the lock on them is held.
    pub store: Option<StoreView>,
    pub phase: PhaseView,
}

/// The failure that there may be.
pub open spec fn optional_failure(failure: Option<Failure>) -> Option<FailureView> {
    match failure {
        Some(f) => Some(f@),
        None => None,
    }
}

/// The store that there may be.
pub open spec fn optional_store(store: Option<Store>) -> Option<StoreView> {
    match store {
        Some(s) => Some(s@),
        None => None,
    }
}

impl View for Runtime {
    type V = RuntimeView;

    closed spec fn view(&self) -> RuntimeView {
        RuntimeView {
            session: self.session@,
            jobs: job_views(self.jobs@),
            renew: self.renew,
            first_error: optional_failure(self.first_error),
            store: optional_store(self.store),
            phase: self.phase@,
        }
    }
}

/// A runtime after a step, and the request that the step leads to.
pub type Step = (RuntimeView, RequestView);

impl RuntimeView {
    /// Whether the stored states are at hand wherever they are needed.
    pub open spec fn valid(self) -> bool {
        &&& self.store matches Some(s) ==> s.session == self.session
        &&& self.phase is Idle || self.phase is Opening || self.store is Some
    }

    /// Whether a runtime waits to hear what becomes of a request.
    pub open spec fn awaits(self, request: RequestView) -> bool {
        match request {
            RequestView::Open { .. } => self.phase is Opening,
            RequestView::ReadPane { .. } => self.phase is ReadingPane,
            RequestView::ReadTab { .. } => self.phase is ReadingPaneTab
                || self.phase is ReadingKnown || self.phase is ReadingCreated,
            RequestView::Flush => self.phase is Flushing,
            RequestView::Rename { .. } => self.phase is Renaming,
            RequestView::Finish(_) => self.phase is Idle,
        }
    }

    /// Takes note of a failure, unless there was one before.
    pub open spec fn noted(self, result: Result<(), FailureView>) -> RuntimeView {
        match (self.first_error, result) {
            (None, Err(failure)) => RuntimeView { first_error: Some(failure), ..self },
            _ => self,
        }
    }

    /// Begins with a row of jobs. Where there are none, all is done.
    pub open spec fn begun(self, jobs: Seq<JobView>) -> Step {
        RuntimeView { jobs, renew: true, first_error: None, ..self }.next_job_then(false)
    }

    /// Goes on to the next job. The time begins anew or not for the ones after that.
    pub open spec fn next_job_then(self, renew: bool) -> Step {
        if self.jobs.len() == 0 {
            (
                RuntimeView {
                    renew,
                    first_error: None,
                    store: None,
                    phase: PhaseView::Idle,
                    ..self
                },
                RequestView::Finish(
                    match self.first_error {
                        Some(failure) => Err(failure),
                        None => Ok(()),
                    },
                ),
            )
        } else {
            (
                RuntimeView {
                    jobs: self.jobs.drop_first(),
                    renew,
                    store: None,
                    phase: PhaseView::Opening { job: self.jobs.first() },
                    ..self
                },
                RequestView::Open { renew_deadline: self.renew },
            )
        }
    }

    /// Goes on to the next job.
    pub open spec fn next_job(self) -> Step {
        self.next_job_then(self.renew)
    }

    /// Goes on to the first of a row of tabs that has a state; without any, to the next job.
    pub open spec fn visited(self, ids: Seq<Seq<char>>) -> Step
        decreases ids.len(),
    {
        if ids.len() == 0 {
            self.next_job()
        } else if self.store->0.get(ids.first()) is Some {
            (
                RuntimeView {
                    phase: PhaseView::ReadingKnown {
                        tab_id: ids.first(),
                        rest: ids.drop_first(),
                    },
                    ..self
                },
                RequestView::ReadTab { tab_id: ids.first() },
            )
        } else {
            self.visited(ids.drop_first())
        }
    }

    /// Renames a tab, where there is one to rename; else goes on to the other tabs.
    pub open spec fn then_renamed(
        self,
        rename: Option<(Seq<char>, Seq<char>)>,
        rest: Seq<Seq<char>>,
    ) -> Step {
        match rename {
            Some((tab_id, to)) => (
                RuntimeView { phase: PhaseView::Renaming { rest }, ..self },
                RequestView::Rename { tab_id, to },
            ),
            None => self.visited(rest),
        }
    }

    /// Goes on with the stored states changed: they are written to disk first, unless they
    /// are there as they are.
    pub open spec fn stored(
        self,
        store: StoreView,
        changed: bool,
        rename: Option<(Seq<char>, Seq<char>)>,
        rest: Seq<Seq<char>>,
    ) -> Step {
        let with_store = RuntimeView { store: Some(store), ..self };
        if changed {
            (
                RuntimeView { phase: PhaseView::Flushing { rename, rest }, ..with_store },
                RequestView::Flush,
            )
        } else {
            with_store.then_renamed(rename, rest)
        }
    }

    /// Forgets a tab.
    pub open spec fn tab_removed(self, tab_id: Seq<char>, rest: Seq<Seq<char>>) -> Step {
        let store = self.store->0;
        self.stored(store.removed(tab_id), store.get(tab_id) is Some, None, rest)
    }

    /// Does what is decided about a tab.
    pub open spec fn applied(
        self,
        tab_id: Seq<char>,
        tab: Tab,
        title: Option<Seq<char>>,
        rest: Seq<Seq<char>>,
    ) -> Step {
        let store = self.store->0;
        match policy::decided(store.get(tab_id), tab.label@, title, tab.agent_status) {
            ActionView::Nothing => self.visited(rest),
            ActionView::Save(state) => self.stored(
                store.saved(tab_id, state),
                store.get(tab_id) != Some(state),
                None,
                rest,
            ),
            ActionView::Rename { to, state } => self.stored(
                store.saved(tab_id, state),
                store.get(tab_id) != Some(state),
                Some((tab_id, to)),
                rest,
            ),
        }
    }

    /// Begins the job that the stored states were read for.
    pub open spec fn started(self, job: JobView) -> Step {
        let store = self.store->0;
        let none = Seq::<Seq<char>>::empty();
        match job {
            JobView::Pane { pane_id } => (
                RuntimeView { phase: PhaseView::ReadingPane, ..self },
                RequestView::ReadPane { pane_id },
            ),
            JobView::Known { tab_id } => self.visited(seq![tab_id]),
            JobView::Workspace { workspace_id } => self.visited(
                store.tab_ids_in_workspace(workspace_id),
            ),
            JobView::Created { tab_id, label } => if store.get(tab_id) is Some {
                (
                    RuntimeView { phase: PhaseView::ReadingCreated { tab_id, label }, ..self },
                    RequestView::ReadTab { tab_id },
                )
            } else {
                self.next_job()
            },
            JobView::CloseTab { tab_id } => self.tab_removed(tab_id, none),
            JobView::CloseWorkspace { workspace_id } => self.stored(
                store.workspace_removed(workspace_id),
                store::has_workspace(store.sessions, store.session, workspace_id),
                None,
                none,
            ),
            JobView::Survey => RuntimeView {
                jobs: Seq::new(
                    store.tab_ids().len(),
                    |i: int| JobView::Known { tab_id: store.tab_ids()[i] },
                ) + self.jobs,
                renew: true,
                ..self
            }.next_job(),
        }
    }

    /// What hearing of the stored states leads to.
    pub open spec fn opened(self, result: Result<Sessions, FailureView>) -> Step {
        match result {
            Ok(sessions) => RuntimeView {
                store: Some(StoreView { session: self.session, sessions }),
                ..self
            }.started(self.phase->job),
            Err(failure) => self.noted(Err(failure)).next_job(),
        }
    }

    /// What hearing of a pane leads to: its tab counts where the pane is an OpenCode's, or
    /// where the tab has a state.
    pub open spec fn pane_read(self, result: Result<Pane, Failure>) -> Step {
        match result {
            Ok(pane) => {
                let opencode = text::optional_text(pane.agent) == Some("opencode"@);
                if opencode || self.store->0.get(pane.tab_id@) is Some {
                    (
                        RuntimeView {
                            phase: PhaseView::ReadingPaneTab {
                                tab_id: pane.tab_id@,
                                title: if opencode {
                                    text::optional_text(pane.terminal_title_stripped)
                                } else {
                                    None
                                },
                            },
                            ..self
                        },
                        RequestView::ReadTab { tab_id: pane.tab_id@ },
                    )
                } else {
                    self.next_job()
                }
            },
            Err(failure) => self.noted(Err(failure@)).next_job(),
        }
    }

    /// What hearing of a tab leads to.
    pub open spec fn tab_read(self, result: Result<Tab, Failure>) -> Step {
        let none = Seq::<Seq<char>>::empty();
        match (self.phase, result) {
            (PhaseView::ReadingPaneTab { tab_id, title }, Ok(tab)) => self.applied(
                tab_id,
                tab,
                if tab.pane_count == 1 {
                    title
                } else {
                    None
                },
                none,
            ),
            (PhaseView::ReadingKnown { tab_id, rest }, Ok(tab)) => self.applied(
                tab_id,
                tab,
                None,
                rest,
            ),
            (PhaseView::ReadingKnown { tab_id, rest }, Err(failure)) => if failure::tab_not_found(
                failure@,
            ) {
                self.tab_removed(tab_id, rest)
            } else {
                self.noted(Err(failure@)).visited(rest)
            },
            (PhaseView::ReadingCreated { tab_id, label }, Ok(tab)) => if tab.label@ == label {
                self.tab_removed(tab_id, none)
            } else {
                self.next_job()
            },
            (_, Err(failure)) => self.noted(Err(failure@)).next_job(),
            (_, Ok(_)) => self.next_job(),
        }
    }

    /// What hearing of the stored states on disk leads to.
    pub open spec fn flushed(self, result: Result<(), FailureView>) -> Step {
        match result {
            Ok(_) => self.then_renamed(self.phase->rename, self.phase->Flushing_rest),
            Err(_) => self.noted(result).visited(self.phase->Flushing_rest),
        }
    }

    /// What hearing of a renaming leads to.
    pub open spec fn renamed(self, result: Result<(), FailureView>) -> Step {
        self.noted(result).visited(self.phase->Renaming_rest)
    }
}

/// The jobs that an event gives.
pub open spec fn jobs_of(event: EventData) -> Seq<JobView> {
    match event {
        EventData::PaneAgentStatusChanged { pane_id } => seq![
            JobView::Pane { pane_id: pane_id@ },
        ],
        EventData::TabCreated { tab } => seq![
            JobView::Created { tab_id: tab.tab_id@, label: tab.label@ },
        ],
        EventData::TabFocused { tab_id } => seq![JobView::Known { tab_id: tab_id@ }],
        EventData::TabRenamed { tab_id } => seq![JobView::Known { tab_id: tab_id@ }],
        EventData::PaneMoved { previous_tab_id, pane } => if previous_tab_id@ == pane.tab_id@ {
            seq![JobView::Pane { pane_id: pane.pane_id@ }]
        } else {
            seq![
                JobView::Pane { pane_id: pane.pane_id@ },
                JobView::Known { tab_id: previous_tab_id@ },
            ]
        },
        EventData::PaneClosed { workspace_id } => seq![
            JobView::Workspace { workspace_id: workspace_id@ },
        ],
        EventData::TabClosed { tab_id } => seq![JobView::CloseTab { tab_id: tab_id@ }],
        EventData::WorkspaceClosed { workspace_id } => seq![
            JobView::CloseWorkspace { workspace_id: workspace_id@ },
        ],
        EventData::Other => Seq::empty(),
    }
}

/// Where a row of tabs leads does not depend on what the runtime was waiting for.
proof fn lemma_phase_is_past(before: RuntimeView, after: RuntimeView)
    requires
        after == (RuntimeView { phase: after.phase, ..before }),
    ensures
        forall|ids: Seq<Seq<char>>| #[trigger] after.visited(ids) == before.visited(ids),
{
    assert forall|ids: Seq<Seq<char>>| #[trigger] after.visited(ids) == before.visited(ids) by {
        lemma_phase_is_past_for(before, after, ids);
    }
}

proof fn lemma_phase_is_past_for(before: RuntimeView, after: RuntimeView, ids: Seq<Seq<char>>)
    requires
        after == (RuntimeView { phase: after.phase, ..before }),
    ensures
        after.visited(ids) == before.visited(ids),
    decreases ids.len(),
{
    if ids.len() > 0 {
        lemma_phase_is_past_for(before, after, ids.drop_first());
    }
}

impl Runtime {
    /// Whether the stored states are at hand wherever they are needed, which the functions
    /// of this type establish and keep.
    pub closed spec fn well_formed(&self) -> bool {
        &&& self@.valid()
        &&& self.store matches Some(store) ==> store.well_formed()
    }

    /// A runtime for the events of a session.
    pub fn new(socket_path: &str) -> (runtime: Runtime)
        ensures
            runtime.well_formed(),
            runtime@ == (RuntimeView {
                session: socket_path@,
                jobs: Seq::empty(),
                renew: false,
                first_error: None,
                store: None,
                phase: PhaseView::Idle,
            }),
    {
        let runtime = Runtime {
            session: socket_path.to_owned(),
            jobs: Vec::new(),
            renew: false,
            first_error: None,
            store: None,
            phase: Phase::Idle,
        };
        proof {
            assert(runtime@.jobs =~= Seq::<JobView>::empty());
        }
        runtime
    }

    /// The stored states, while the lock on them is held.
    pub fn store(&self) -> (store: Option<&Store>)
        requires
            self.well_formed(),
        ensures
            match store {
                Some(s) => s.well_formed() && self@.store == Some(s@),
                None => self@.store is None,
            },
    {
        self.store.as_ref()
    }

    /// Takes note of a failure, unless there was one before.
    fn note(&mut self, failure: Failure)
        requires
            old(self).well_formed(),
        ensures
            final(self).well_formed(),
            final(self)@ == old(self)@.noted(Err(failure@)),
    {
        if self.first_error.is_none() {
            self.first_error = Some(failure);
        }
    }

    /// Goes on to the next job. The time begins anew or not for the ones after that.
    fn next_job_then(&mut self, renew: bool) -> (request: Request)
        requires
            old(self).well_formed(),
        ensures
            final(self).well_formed(),
            (final(self)@, request@) == old(self)@.next_job_then(renew),
    {
        self.store = None;
        let renew_deadline = self.renew;
        self.renew = renew;
        if self.jobs.len() == 0 {
            self.phase = Phase::Idle;
            match self.first_error.take() {
                Some(failure) => Request::Finish(Err(failure)),
                None => Request::Finish(Ok(())),
            }
        } else {
            let ghost jobs = self.jobs@;
            let job = self.jobs.remove(0);
            proof {
                assert(job_views(self.jobs@) =~= job_views(jobs).drop_first());
            }
            self.phase = Phase::Opening { job };
            Request::Open { renew_deadline }
        }
    }

    /// Goes on to the next job.
    fn next_job(&mut self) -> (request: Request)
        requires
            old(self).well_formed(),
        ensures
            final(self).well_formed(),
            (final(self)@, request@) == old(self)@.next_job(),
    {
        let renew = self.renew;
        self.next_job_then(renew)
    }

    /// Begins with a row of jobs. Where there are none, all is done.
    fn begin(&mut self, jobs: Vec<Job>) -> (request: Request)
        requires
            old(self).well_formed(),
        ensures
            final(self).well_formed(),
            (final(self)@, request@) == old(self)@.begun(job_views(jobs@)),
    {
        self.jobs = jobs;
        self.renew = true;
        self.first_error = None;
        self.next_job_then(false)
    }

    /// Begins with one job.
    fn begin_one(&mut self, job: Job) -> (request: Request)
        requires
            old(self).well_formed(),
        ensures
            final(self).well_formed(),
            (final(self)@, request@) == old(self)@.begun(seq![job@]),
    {
        let mut jobs: Vec<Job> = Vec::new();
        jobs.push(job);
        proof {
            assert(job_views(jobs@) =~= seq![job@]);
        }
        self.begin(jobs)
    }

    /// Begins to work on an event.
    ///
    /// A pane that moves between two tabs brings the tab that it is now in up to date
    /// first, then the one that it was in, whatever becomes of the first.
    pub fn run_event(&mut self, event: EventData) -> (request: Request)
        requires
            old(self).well_formed(),
        ensures
            final(self).well_formed(),
            (final(self)@, request@) == old(self)@.begun(jobs_of(event)),
    {
        match event {
            EventData::PaneAgentStatusChanged { pane_id } => self.update_from_pane(pane_id),
            EventData::TabCreated { tab } => self.remove_created_tab(tab),
            EventData::TabFocused { tab_id } => self.update_known_tab(tab_id),
            EventData::TabRenamed { tab_id } => self.update_known_tab(tab_id),
            EventData::PaneMoved { previous_tab_id, pane } => {
                let elsewhere = !same_text(previous_tab_id.as_str(), pane.tab_id.as_str());
                let ghost moved = jobs_of(event);
                let mut jobs: Vec<Job> = Vec::new();
                jobs.push(Job::Pane { pane_id: pane.pane_id });
                if elsewhere {
                    jobs.push(Job::Known { tab_id: previous_tab_id });
                }
                proof {
                    assert(job_views(jobs@) =~= moved);
                }
                self.begin(jobs)
            },
            EventData::PaneClosed { workspace_id } => self.update_workspace_tabs(workspace_id),
            EventData::TabClosed { tab_id } => self.begin_one(Job::CloseTab { tab_id }),
            EventData::WorkspaceClosed { workspace_id } => self.begin_one(
                Job::CloseWorkspace { workspace_id },
            ),
            EventData::Other => {
                let jobs: Vec<Job> = Vec::new();
                proof {
                    assert(job_views(jobs@) =~= Seq::<JobView>::empty());
                }
                self.begin(jobs)
            },
        }
    }

    /// Begins to bring every tab that has a state up to date, each in a time of its own.
    pub fn reconcile_startup(&mut self) -> (request: Request)
        requires
            old(self).well_formed(),
        ensures
            final(self).well_formed(),
            (final(self)@, request@) == old(self)@.begun(seq![JobView::Survey]),
    {
        self.begin_one(Job::Survey)
    }

    /// Begins to bring the tab of a pane up to date, with the title of the pane where that
    /// is the only one and an OpenCode's.
    pub fn update_from_pane(&mut self, pane_id: String) -> (request: Request)
        requires
            old(self).well_formed(),
        ensures
            final(self).well_formed(),
            (final(self)@, request@) == old(self)@.begun(
                seq![JobView::Pane { pane_id: pane_id@ }],
            ),
    {
        self.begin_one(Job::Pane { pane_id })
    }

    /// Begins to bring a tab up to date, where it has a state.
    pub fn update_known_tab(&mut self, tab_id: String) -> (request: Request)
        requires
            old(self).well_formed(),
        ensures
            final(self).well_formed(),
            (final(self)@, request@) == old(self)@.begun(
                seq![JobView::Known { tab_id: tab_id@ }],
            ),
    {
        self.begin_one(Job::Known { tab_id })
    }

    /// Begins to bring the tabs of a workspace up to date that have a state, under one lock.
    pub fn update_workspace_tabs(&mut self, workspace_id: String) -> (request: Request)
        requires
            old(self).well_formed(),
        ensures
            final(self).well_formed(),
            (final(self)@, request@) == old(self)@.begun(
                seq![JobView::Workspace { workspace_id: workspace_id@ }],
            ),
    {
        self.begin_one(Job::Workspace { workspace_id })
    }

    /// Begins to forget a tab that was created under a name that has a state already, where
    /// the tab still carries the label that it was created with.
    pub fn remove_created_tab(&mut self, created: EventTab) -> (request: Request)
        requires
            old(self).well_formed(),
        ensures
            final(self).well_formed(),
            (final(self)@, request@) == old(self)@.begun(
                seq![JobView::Created { tab_id: created.tab_id@, label: created.label@ }],
            ),
    {
        self.begin_one(Job::Created { tab_id: created.tab_id, label: created.label })
    }

    /// Whether a tab has a state in the store that is at hand.
    fn knows(&self, tab_id: &str) -> (known: bool)
        requires
            self.well_formed(),
            self@.store is Some,
        ensures
            known == self@.store->0.get(tab_id@) is Some,
    {
        match &self.store {
            Some(store) => store.contains(tab_id),
            None => false,
        }
    }

    /// Goes on to the first of a row of tabs that has a state; without any, to the next job.
    fn update_known_tab_with_store(&mut self, ids: Vec<String>) -> (request: Request)
        requires
            old(self).well_formed(),
            old(self)@.store is Some,
        ensures
            final(self).well_formed(),
            (final(self)@, request@) == old(self)@.visited(text::texts(ids@)),
    {
        let ghost before = self@;
        let ghost all = text::texts(ids@);
        let mut rest = ids;
        while rest.len() > 0
            invariant
                self.well_formed(),
                self@ == before,
                before == old(self)@,
                all == text::texts(ids@),
                before.store is Some,
                before.visited(text::texts(rest@)) == before.visited(all),
            decreases rest@.len(),
        {
            let ghost now = rest@;
            let tab_id = rest.remove(0);
            proof {
                assert(text::texts(rest@) =~= text::texts(now).drop_first());
                assert(text::texts(now).first() == tab_id@);
            }
            if self.knows(tab_id.as_str()) {
                let asked = tab_id.clone();
                self.phase = Phase::ReadingKnown { tab_id, rest };
                return Request::ReadTab { tab_id: asked };
            }
        }
        self.next_job()
    }

    /// Renames a tab, where there is one to rename; else goes on to the other tabs.
    fn then_rename(&mut self, rename: Option<(String, String)>, rest: Vec<String>) -> (request:
        Request)
        requires
            old(self).well_formed(),
            old(self)@.store is Some,
        ensures
            final(self).well_formed(),
            (final(self)@, request@) == old(self)@.then_renamed(
                rename_view(rename),
                text::texts(rest@),
            ),
    {
        match rename {
            Some((tab_id, to)) => {
                self.phase = Phase::Renaming { rest };
                Request::Rename { tab_id, to }
            },
            None => self.update_known_tab_with_store(rest),
        }
    }

    /// Goes on with the stored states changed, or not.
    fn put_store(
        &mut self,
        store: Store,
        changed: bool,
        rename: Option<(String, String)>,
        rest: Vec<String>,
    ) -> (request: Request)
        requires
            store.well_formed(),
            store@.session == old(self)@.session,
        ensures
            final(self).well_formed(),
            (final(self)@, request@) == old(self)@.stored(
                store@,
                changed,
                rename_view(rename),
                text::texts(rest@),
            ),
    {
        self.store = Some(store);
        if changed {
            self.phase = Phase::Flushing { rename, rest };
            Request::Flush
        } else {
            self.then_rename(rename, rest)
        }
    }

    /// Forgets a tab.
    fn remove_tab(&mut self, tab_id: String, rest: Vec<String>) -> (request: Request)
        requires
            old(self).well_formed(),
            old(self)@.store is Some,
        ensures
            final(self).well_formed(),
            (final(self)@, request@) == old(self)@.tab_removed(tab_id@, text::texts(rest@)),
    {
        match self.store.take() {
            Some(mut store) => {
                let changed = store.remove_tab(tab_id.as_str());
                self.put_store(store, changed, None, rest)
            },
            None => self.next_job(),
        }
    }

    /// Does what is decided about a tab. A new state is stored before the tab is renamed.
    fn apply_tab(&mut self, tab_id: String, tab: &Tab, title: Option<&str>, rest: Vec<String>) -> (
    request: Request)
        requires
            old(self).well_formed(),
            old(self)@.store is Some,
        ensures
            final(self).well_formed(),
            (final(self)@, request@) == old(self)@.applied(
                tab_id@,
                *tab,
                text::optional_slice(title),
                text::texts(rest@),
            ),
    {
        match self.store.take() {
            Some(mut store) => {
                match decide(
                    store.get(tab_id.as_str()),
                    tab.label.as_str(),
                    title,
                    tab.agent_status,
                ) {
                    Action::Nothing => {
                        self.store = Some(store);
                        self.update_known_tab_with_store(rest)
                    },
                    Action::Save(state) => {
                        let changed = store.save_tab(tab_id.as_str(), state);
                        self.put_store(store, changed, None, rest)
                    },
                    Action::Rename { to, state } => {
                        let changed = store.save_tab(tab_id.as_str(), state);
                        self.put_store(store, changed, Some((tab_id, to)), rest)
                    },
                }
            },
            None => self.next_job(),
        }
    }

    /// The jobs of bringing each of a row of tabs up to date, then some others.
    fn survey(ids: Vec<String>, others: Vec<Job>) -> (jobs: Vec<Job>)
        ensures
            job_views(jobs@) == Seq::new(
                text::texts(ids@).len(),
                |i: int| JobView::Known { tab_id: text::texts(ids@)[i] },
            ) + job_views(others@),
    {
        let mut jobs: Vec<Job> = Vec::new();
        let mut i: usize = 0;
        while i < ids.len()
            invariant
                i <= ids@.len(),
                jobs@.len() == i,
                forall|j: int|
                    0 <= j < i ==> #[trigger] jobs@[j]@ == (JobView::Known { tab_id: ids@[j]@ }),
            decreases ids@.len() - i,
        {
            jobs.push(Job::Known { tab_id: ids[i].clone() });
            i += 1;
        }
        let ghost known = jobs@;
        let ghost after = others@;
        let mut others = others;
        jobs.append(&mut others);
        proof {
            assert(job_views(jobs@) =~= job_views(known) + job_views(after));
        }
        jobs
    }

    /// Begins the job that the stored states were read for.
    fn start(&mut self, job: Job, store: Store) -> (request: Request)
        requires
            store.well_formed(),
            store@.session == old(self)@.session,
        ensures
            final(self).well_formed(),
            (final(self)@, request@) == (RuntimeView {
                store: Some(store@),
                ..old(self)@
            }).started(job@),
    {
        let none: Vec<String> = Vec::new();
        proof {
            assert(text::texts(none@) =~= Seq::<Seq<char>>::empty());
        }
        let mut store = store;
        match job {
            Job::Pane { pane_id } => {
                self.store = Some(store);
                self.phase = Phase::ReadingPane;
                Request::ReadPane { pane_id }
            },
            Job::Known { tab_id } => {
                self.store = Some(store);
                let mut ids: Vec<String> = Vec::new();
                ids.push(tab_id);
                proof {
                    assert(text::texts(ids@) =~= seq![tab_id@]);
                }
                self.update_known_tab_with_store(ids)
            },
            Job::Workspace { workspace_id } => {
                let ids = store.tab_ids_in_workspace(workspace_id.as_str());
                self.store = Some(store);
                self.update_known_tab_with_store(ids)
            },
            Job::Created { tab_id, label } => {
                let known = store.contains(tab_id.as_str());
                self.store = Some(store);
                if known {
                    let asked = tab_id.clone();
                    self.phase = Phase::ReadingCreated { tab_id, label };
                    Request::ReadTab { tab_id: asked }
                } else {
                    self.next_job()
                }
            },
            Job::CloseTab { tab_id } => {
                self.store = Some(store);
                self.remove_tab(tab_id, none)
            },
            Job::CloseWorkspace { workspace_id } => {
                let changed = store.remove_workspace(workspace_id.as_str());
                self.put_store(store, changed, None, none)
            },
            Job::Survey => {
                let ids = store.tab_ids();
                self.store = Some(store);
                let mut others: Vec<Job> = Vec::new();
                std::mem::swap(&mut others, &mut self.jobs);
                self.jobs = Self::survey(ids, others);
                self.renew = true;
                self.next_job()
            },
        }
    }

    /// Goes on once the stored states are read, or are not.
    pub fn opened(&mut self, loaded: Loaded) -> (request: Request)
        requires
            old(self).well_formed(),
            old(self)@.phase is Opening,
            loaded matches Loaded::Contents(state) ==> state.well_formed(),
        ensures
            final(self).well_formed(),
            (final(self)@, request@) == old(self)@.opened(store::loaded_sessions(loaded)),
    {
        match Store::open(self.session.as_str(), loaded) {
            Ok(store) => {
                let mut phase = Phase::Idle;
                std::mem::swap(&mut phase, &mut self.phase);
                proof {
                    lemma_phase_is_past(
                        RuntimeView { store: Some(store@), ..old(self)@ },
                        RuntimeView { store: Some(store@), ..self@ },
                    );
                }
                match phase {
                    Phase::Opening { job } => self.start(job, store),
                    _ => self.next_job(),
                }
            },
            Err(failure) => {
                self.note(failure);
                self.next_job()
            },
        }
    }

    /// Goes on once a pane is known, or is not.
    pub fn pane_read(&mut self, result: Result<Pane, Failure>) -> (request: Request)
        requires
            old(self).well_formed(),
            old(self)@.phase is ReadingPane,
        ensures
            final(self).well_formed(),
            (final(self)@, request@) == old(self)@.pane_read(result),
    {
        match result {
            Ok(pane) => {
                let opencode = match &pane.agent {
                    Some(agent) => same_text(agent.as_str(), "opencode"),
                    None => false,
                };
                if !opencode && !self.knows(pane.tab_id.as_str()) {
                    return self.next_job();
                }
                let title = if opencode {
                    pane.terminal_title_stripped
                } else {
                    None
                };
                let asked = pane.tab_id.clone();
                self.phase = Phase::ReadingPaneTab { tab_id: pane.tab_id, title };
                Request::ReadTab { tab_id: asked }
            },
            Err(failure) => {
                self.note(failure);
                self.next_job()
            },
        }
    }

    /// Goes on once a tab is known, or is not. A tab that has a state, and that Herdr says
    /// does not exist, is forgotten.
    pub fn tab_read(&mut self, result: Result<Tab, Failure>) -> (request: Request)
        requires
            old(self).well_formed(),
            old(self)@.phase is ReadingPaneTab || old(self)@.phase is ReadingKnown
                || old(self)@.phase is ReadingCreated,
        ensures
            final(self).well_formed(),
            (final(self)@, request@) == old(self)@.tab_read(result),
    {
        let none: Vec<String> = Vec::new();
        proof {
            assert(text::texts(none@) =~= Seq::<Seq<char>>::empty());
        }
        let mut phase = Phase::Idle;
        std::mem::swap(&mut phase, &mut self.phase);
        proof {
            lemma_phase_is_past(old(self)@, self@);
        }
        match (phase, result) {
            (Phase::ReadingPaneTab { tab_id, title }, Ok(tab)) => {
                let counted = if tab.pane_count == 1 {
                    title
                } else {
                    None
                };
                let slice: Option<&str> = match &counted {
                    Some(text) => Some(text.as_str()),
                    None => None,
                };
                self.apply_tab(tab_id, &tab, slice, none)
            },
            (Phase::ReadingKnown { tab_id, rest }, Ok(tab)) => self.apply_tab(
                tab_id,
                &tab,
                None,
                rest,
            ),
            (Phase::ReadingKnown { tab_id, rest }, Err(failure)) => {
                if is_tab_not_found(&failure) {
                    self.remove_tab(tab_id, rest)
                } else {
                    self.note(failure);
                    proof {
                        lemma_phase_is_past(old(self)@.noted(Err(failure@)), self@);
                    }
                    self.update_known_tab_with_store(rest)
                }
            },
            (Phase::ReadingCreated { tab_id, label }, Ok(tab)) => {
                if same_text(tab.label.as_str(), label.as_str()) {
                    self.remove_tab(tab_id, none)
                } else {
                    self.next_job()
                }
            },
            (_, Err(failure)) => {
                self.note(failure);
                self.next_job()
            },
            (_, Ok(_)) => self.next_job(),
        }
    }

    /// Goes on once the stored states are on disk, or are not. Only in the former case is
    /// the tab renamed.
    pub fn flushed(&mut self, result: Result<(), Failure>) -> (request: Request)
        requires
            old(self).well_formed(),
            old(self)@.phase is Flushing,
        ensures
            final(self).well_formed(),
            (final(self)@, request@) == old(self)@.flushed(failure::outcome(result)),
    {
        let mut phase = Phase::Idle;
        std::mem::swap(&mut phase, &mut self.phase);
        proof {
            lemma_phase_is_past(old(self)@, self@);
        }
        match phase {
            Phase::Flushing { rename, rest } => match result {
                Ok(_) => self.then_rename(rename, rest),
                Err(failure) => {
                    self.note(failure);
                    proof {
                        lemma_phase_is_past(old(self)@.noted(Err(failure@)), self@);
                    }
                    self.update_known_tab_with_store(rest)
                },
            },
            _ => self.next_job(),
        }
    }

    /// Goes on once a tab is renamed, or is not.
    pub fn renamed(&mut self, result: Result<(), Failure>) -> (request: Request)
        requires
            old(self).well_formed(),
            old(self)@.phase is Renaming,
        ensures
            final(self).well_formed(),
            (final(self)@, request@) == old(self)@.renamed(failure::outcome(result)),
    {
        let mut phase = Phase::Idle;
        std::mem::swap(&mut phase, &mut self.phase);
        if let Err(failure) = result {
            self.note(failure);
        }
        proof {
            lemma_phase_is_past(old(self)@.noted(failure::outcome(result)), self@);
        }
        match phase {
            Phase::Renaming { rest } => self.update_known_tab_with_store(rest),
            _ => self.next_job(),
        }
    }
}

} // verus!
