//! The states of the tabs of all sessions, and the part of them that belongs to one session.

use vstd::prelude::*;
use vstd::string::*;

use crate::failure::{Failure, FailureView};
use crate::policy;
use crate::policy::{same_state, TabState, TabStateView};
use crate::text;
use crate::text::starts_with;
use crate::text_map;
use crate::text_map::TextMap;

verus! {

/// The states of the tabs of each session.
pub type Sessions = Map<Seq<char>, Map<Seq<char>, TabStateView>>;

/// The tabs of a session. A session that is not there has none.
pub open spec fn tabs_in(sessions: Sessions, session: Seq<char>) -> Map<Seq<char>, TabStateView> {
    if sessions.contains_key(session) {
        sessions[session]
    } else {
        Map::empty()
    }
}

/// The state of a tab of a session.
pub open spec fn looked_up(
    sessions: Sessions,
    session: Seq<char>,
    tab: Seq<char>,
) -> Option<TabStateView> {
    if tabs_in(sessions, session).contains_key(tab) {
        Some(tabs_in(sessions, session)[tab])
    } else {
        None
    }
}

/// The sessions once a tab of one of them has a new state.
pub open spec fn with_tab(
    sessions: Sessions,
    session: Seq<char>,
    tab: Seq<char>,
    state: TabStateView,
) -> Sessions {
    sessions.insert(session, tabs_in(sessions, session).insert(tab, state))
}

/// The sessions once one of them is left with some of its tabs. Without any, it is gone.
pub open spec fn left_with(
    sessions: Sessions,
    session: Seq<char>,
    tabs: Map<Seq<char>, TabStateView>,
) -> Sessions {
    if tabs == Map::<Seq<char>, TabStateView>::empty() {
        sessions.remove(session)
    } else {
        sessions.insert(session, tabs)
    }
}

/// The sessions once a tab is gone from one of them.
pub open spec fn without_tab(sessions: Sessions, session: Seq<char>, tab: Seq<char>) -> Sessions {
    if looked_up(sessions, session, tab) is Some {
        left_with(sessions, session, tabs_in(sessions, session).remove(tab))
    } else {
        sessions
    }
}

/// Whether a tab belongs to a workspace: its name begins with the workspace and a colon.
pub open spec fn in_workspace(workspace: Seq<char>, tab: Seq<char>) -> bool {
    (workspace + ":"@).is_prefix_of(tab)
}

/// The names of the tabs of a session that belong to a workspace.
pub open spec fn workspace_tabs(
    sessions: Sessions,
    session: Seq<char>,
    workspace: Seq<char>,
) -> Set<Seq<char>> {
    tabs_in(sessions, session).dom().filter(|tab: Seq<char>| in_workspace(workspace, tab))
}

/// Whether a session has a tab that belongs to a workspace.
pub open spec fn has_workspace(
    sessions: Sessions,
    session: Seq<char>,
    workspace: Seq<char>,
) -> bool {
    exists|tab: Seq<char>| #[trigger]
        tabs_in(sessions, session).contains_key(tab) && in_workspace(workspace, tab)
}

/// The sessions once the tabs of a workspace are gone from one of them.
pub open spec fn without_workspace(
    sessions: Sessions,
    session: Seq<char>,
    workspace: Seq<char>,
) -> Sessions {
    if has_workspace(sessions, session, workspace) {
        left_with(
            sessions,
            session,
            tabs_in(sessions, session).restrict(
                Set::new(|tab: Seq<char>| !in_workspace(workspace, tab)),
            ),
        )
    } else {
        sessions
    }
}

/// The states of the tabs of all sessions, as they are kept on disk.
pub struct StoredState {
    sessions: TextMap<TextMap<TabState>>,
}

spec fn tabs_view(tabs: Map<Seq<char>, TabState>) -> Map<Seq<char>, TabStateView> {
    Map::new(|tab: Seq<char>| tabs.contains_key(tab), |tab: Seq<char>| tabs[tab]@)
}

impl View for StoredState {
    type V = Sessions;

    closed spec fn view(&self) -> Sessions {
        Map::new(
            |session: Seq<char>| self.sessions@.contains_key(session),
            |session: Seq<char>| tabs_view(self.sessions@[session]@),
        )
    }
}

/// The tabs that a list stands for.
pub open spec fn listed_tabs(entries: Seq<(String, TabState)>) -> Map<Seq<char>, TabStateView>
    decreases entries.len(),
{
    if entries.len() == 0 {
        Map::empty()
    } else {
        listed_tabs(entries.drop_last()).insert(entries.last().0@, entries.last().1@)
    }
}

/// The sessions that a list stands for.
pub open spec fn listed_sessions(entries: Seq<(String, Vec<(String, TabState)>)>) -> Sessions
    decreases entries.len(),
{
    if entries.len() == 0 {
        Map::empty()
    } else {
        listed_sessions(entries.drop_last()).insert(
            entries.last().0@,
            listed_tabs(entries.last().1@),
        )
    }
}

/// The names in a list of tabs.
pub open spec fn tab_names_of(entries: Seq<(String, TabState)>) -> Seq<Seq<char>> {
    Seq::new(entries.len(), |i: int| entries[i].0@)
}

/// The names in a list of sessions.
pub open spec fn session_names_of(
    entries: Seq<(String, Vec<(String, TabState)>)>,
) -> Seq<Seq<char>> {
    Seq::new(entries.len(), |i: int| entries[i].0@)
}

/// The tabs that a list stands for.
fn tabs_from(entries: &Vec<(String, TabState)>) -> (tabs: TextMap<TabState>)
    ensures
        tabs.well_formed(),
        tabs_view(tabs@) == listed_tabs(entries@),
{
    let mut tabs: TextMap<TabState> = TextMap::new();
    let mut i: usize = 0;
    proof {
        assert(listed_tabs(entries@.take(0)) =~= tabs_view(tabs@));
    }
    while i < entries.len()
        invariant
            i <= entries@.len(),
            tabs.well_formed(),
            tabs_view(tabs@) == listed_tabs(entries@.take(i as int)),
        decreases entries@.len() - i,
    {
        let ghost before = tabs@;
        let state = entries[i].1.clone();
        tabs.insert(entries[i].0.clone(), state);
        proof {
            assert(entries@.take(i + 1).drop_last() =~= entries@.take(i as int));
            assert(tabs_view(tabs@) =~= tabs_view(before).insert(
                entries@[i as int].0@,
                state@,
            ));
        }
        i += 1;
    }
    proof {
        assert(entries@.take(entries@.len() as int) =~= entries@);
    }
    tabs
}

/// The list of some tabs, in ascending order of their names.
fn entries_of(tabs: &TextMap<TabState>) -> (entries: Vec<(String, TabState)>)
    requires
        tabs.well_formed(),
    ensures
        listed_tabs(entries@) == tabs_view(tabs@),
        text_map::ascending(tab_names_of(entries@)),
{
    let names = tabs.keys();
    let ghost row = text::texts(names@);
    let mut entries: Vec<(String, TabState)> = Vec::new();
    let mut i: usize = 0;
    while i < names.len()
        invariant
            tabs.well_formed(),
            row == text::texts(names@),
            text_map::ascending(row),
            text_map::lists(row, tabs@.dom()),
            i <= names@.len(),
            entries@.len() == i,
            tab_names_of(entries@) == row.take(i as int),
            forall|k: Seq<char>| #[trigger]
                listed_tabs(entries@).contains_key(k) <==> row.take(i as int).contains(k),
            forall|k: Seq<char>| #[trigger]
                listed_tabs(entries@).contains_key(k) ==> listed_tabs(entries@)[k] == tabs@[k]@,
        decreases names@.len() - i,
    {
        let ghost next = row[i as int];
        let ghost before = entries@;
        proof {
            assert(row.contains(next));
            assert(tabs@.dom().contains(next));
            assert(row.take(i + 1) =~= row.take(i as int).push(next));
            lemma_push_contains(row.take(i as int), next);
        }
        if let Some(state) = tabs.get(names[i].as_str()) {
            entries.push((names[i].clone(), state.clone()));
            proof {
                assert(entries@.drop_last() =~= before);
                assert(tab_names_of(entries@) =~= tab_names_of(before).push(next));
                assert(listed_tabs(entries@) == listed_tabs(before).insert(next, state@));
            }
        }
        i += 1;
    }
    proof {
        assert(row.take(row.len() as int) =~= row);
        assert(tab_names_of(entries@) =~= row);
        assert(listed_tabs(entries@) =~= tabs_view(tabs@));
    }
    entries
}

impl StoredState {
    /// Whether the maps inside are in order, which the functions of this type establish and
    /// keep.
    pub closed spec fn well_formed(&self) -> bool {
        &&& self.sessions.well_formed()
        &&& forall|session: Seq<char>| #[trigger]
            self.sessions@.contains_key(session) ==> self.sessions@[session].well_formed()
    }

    /// There are finitely many sessions, and each has finitely many tabs.
    pub proof fn law_states_are_finite(&self)
        ensures
            self@.dom().finite(),
            forall|session: Seq<char>| (#[trigger] tabs_in(self@, session)).dom().finite(),
    {
        self.sessions.lemma_keys_are_finite();
        assert(self@.dom() =~= self.sessions@.dom());
        assert forall|session: Seq<char>| (#[trigger] tabs_in(self@, session)).dom().finite() by {
            if self@.contains_key(session) {
                let tabs = self.sessions@[session];
                tabs.lemma_keys_are_finite();
                assert(tabs_in(self@, session).dom() =~= tabs@.dom());
            }
        }
    }

    /// No sessions at all.
    pub fn new() -> (state: Self)
        ensures
            state.well_formed(),
            state@ == Map::<Seq<char>, Map<Seq<char>, TabStateView>>::empty(),
    {
        let state = StoredState { sessions: TextMap::new() };
        proof {
            assert(state@ =~= Map::<Seq<char>, Map<Seq<char>, TabStateView>>::empty());
        }
        state
    }

    /// The states that a list of sessions, each with a list of its tabs, stands for. Of two
    /// that have the same name the later one counts.
    pub fn from_entries(entries: Vec<(String, Vec<(String, TabState)>)>) -> (state: Self)
        ensures
            state.well_formed(),
            state@ == listed_sessions(entries@),
    {
        let mut state = StoredState::new();
        let mut i: usize = 0;
        proof {
            assert(listed_sessions(entries@.take(0)) =~= state@);
        }
        while i < entries.len()
            invariant
                i <= entries@.len(),
                state.well_formed(),
                state@ == listed_sessions(entries@.take(i as int)),
            decreases entries@.len() - i,
        {
            let tabs = tabs_from(&entries[i].1);
            state.put(entries[i].0.as_str(), tabs);
            proof {
                assert(entries@.take(i + 1).drop_last() =~= entries@.take(i as int));
            }
            i += 1;
        }
        proof {
            assert(entries@.take(entries@.len() as int) =~= entries@);
        }
        state
    }

    /// The sessions, each with a list of its tabs, all in ascending order of their names.
    pub fn to_entries(&self) -> (entries: Vec<(String, Vec<(String, TabState)>)>)
        requires
            self.well_formed(),
        ensures
            listed_sessions(entries@) == self@,
            session_names_of(entries@) == text_map::in_order(self@.dom()),
            text_map::ascending(session_names_of(entries@)),
            forall|i: int|
                0 <= i < entries@.len() ==> text_map::ascending(
                    tab_names_of((#[trigger] entries@[i]).1@),
                ),
    {
        let names = self.session_names();
        let ghost row = text::texts(names@);
        let mut entries: Vec<(String, Vec<(String, TabState)>)> = Vec::new();
        let mut i: usize = 0;
        while i < names.len()
            invariant
                self.well_formed(),
                row == text::texts(names@),
                text_map::ascending(row),
                text_map::lists(row, self@.dom()),
                i <= names@.len(),
                entries@.len() == i,
                session_names_of(entries@) == row.take(i as int),
                forall|k: Seq<char>| #[trigger]
                    listed_sessions(entries@).contains_key(k) <==> row.take(i as int).contains(k),
                forall|k: Seq<char>| #[trigger]
                    listed_sessions(entries@).contains_key(k) ==> listed_sessions(entries@)[k]
                        == self@[k],
                forall|j: int|
                    0 <= j < i ==> text_map::ascending(tab_names_of((#[trigger] entries@[j]).1@)),
            decreases names@.len() - i,
        {
            let ghost next = row[i as int];
            let ghost before = entries@;
            proof {
                assert(row.contains(next));
                assert(row.take(i + 1) =~= row.take(i as int).push(next));
                lemma_push_contains(row.take(i as int), next);
            }
            let tabs: Vec<(String, TabState)> = match self.sessions.get(names[i].as_str()) {
                Some(tabs) => entries_of(tabs),
                None => Vec::new(),
            };
            entries.push((names[i].clone(), tabs));
            proof {
                assert(entries@.drop_last() =~= before);
                assert(session_names_of(entries@) =~= session_names_of(before).push(next));
                assert(listed_sessions(entries@) == listed_sessions(before).insert(
                    next,
                    listed_tabs(tabs@),
                ));
            }
            i += 1;
        }
        proof {
            assert(row.take(row.len() as int) =~= row);
            assert(listed_sessions(entries@) =~= self@);
        }
        entries
    }

    /// The names of the sessions, in ascending order.
    pub fn session_names(&self) -> (names: Vec<String>)
        requires
            self.well_formed(),
        ensures
            text::texts(names@) == text_map::in_order(self@.dom()),
            text_map::ascending(text::texts(names@)),
            text_map::lists(text::texts(names@), self@.dom()),
    {
        let names = self.sessions.keys();
        proof {
            assert(self.sessions@.dom() =~= self@.dom());
        }
        names
    }

    /// The state of a tab of a session.
    pub fn get(&self, session: &str, tab_id: &str) -> (state: Option<&TabState>)
        requires
            self.well_formed(),
        ensures
            policy::optional_state(state) == looked_up(self@, session@, tab_id@),
    {
        match self.sessions.get(session) {
            Some(tabs) => tabs.get(tab_id),
            None => None,
        }
    }

    /// The names of the tabs of a session, in ascending order.
    pub fn tab_ids(&self, session: &str) -> (ids: Vec<String>)
        requires
            self.well_formed(),
        ensures
            text::texts(ids@) == text_map::in_order(tabs_in(self@, session@).dom()),
            text_map::ascending(text::texts(ids@)),
            text_map::lists(text::texts(ids@), tabs_in(self@, session@).dom()),
    {
        match self.sessions.get(session) {
            Some(tabs) => {
                let ids = tabs.keys();
                proof {
                    assert(tabs@.dom() =~= tabs_in(self@, session@).dom());
                }
                ids
            },
            None => {
                let ids: Vec<String> = Vec::new();
                proof {
                    let row = text::texts(ids@);
                    assert(row =~= Seq::<Seq<char>>::empty());
                    text_map::lemma_in_order(row, tabs_in(self@, session@).dom());
                }
                ids
            },
        }
    }

    /// Takes the tabs of a session out, with the session.
    fn take(&mut self, session: &str) -> (tabs: Option<TextMap<TabState>>)
        requires
            old(self).well_formed(),
        ensures
            final(self).well_formed(),
            final(self)@ == old(self)@.remove(session@),
            match tabs {
                Some(t) => t.well_formed() && old(self)@.contains_key(session@)
                    && old(self)@[session@] == tabs_view(t@),
                None => !old(self)@.contains_key(session@),
            },
    {
        let ghost before = self@;
        let tabs = self.sessions.remove(session);
        proof {
            assert(self@ =~= before.remove(session@));
        }
        tabs
    }

    /// Puts a session back with its tabs.
    fn put(&mut self, session: &str, tabs: TextMap<TabState>)
        requires
            old(self).well_formed(),
            tabs.well_formed(),
        ensures
            final(self).well_formed(),
            final(self)@ == old(self)@.insert(session@, tabs_view(tabs@)),
    {
        let ghost before = self@;
        self.sessions.insert(session.to_owned(), tabs);
        proof {
            assert(self@ =~= before.insert(session@, tabs_view(tabs@)));
        }
    }

    /// Gives a tab of a session a new state.
    pub fn insert(&mut self, session: &str, tab_id: &str, state: TabState)
        requires
            old(self).well_formed(),
        ensures
            final(self).well_formed(),
            final(self)@ == with_tab(old(self)@, session@, tab_id@, state@),
    {
        let ghost before = self@;
        let mut tabs = match self.take(session) {
            Some(tabs) => tabs,
            None => TextMap::new(),
        };
        proof {
            assert(tabs_view(tabs@) =~= tabs_in(before, session@));
        }
        let ghost were = tabs@;
        tabs.insert(tab_id.to_owned(), state);
        proof {
            assert(tabs_view(tabs@) =~= tabs_view(were).insert(tab_id@, state@));
        }
        self.put(session, tabs);
        proof {
            assert(self@ =~= with_tab(before, session@, tab_id@, state@));
        }
    }

    /// Puts a session back with what is left of its tabs, unless nothing is.
    fn put_back(&mut self, session: &str, tabs: TextMap<TabState>)
        requires
            old(self).well_formed(),
            tabs.well_formed(),
            !old(self)@.contains_key(session@),
        ensures
            final(self).well_formed(),
            final(self)@ == left_with(old(self)@, session@, tabs_view(tabs@)),
    {
        proof {
            if tabs@ == Map::<Seq<char>, TabState>::empty() {
                assert(tabs_view(tabs@) =~= Map::<Seq<char>, TabStateView>::empty());
                assert(self@.remove(session@) =~= self@);
            } else if tabs_view(tabs@) == Map::<Seq<char>, TabStateView>::empty() {
                assert forall|tab: Seq<char>| !tabs@.contains_key(tab) by {
                    assert(!tabs_view(tabs@).contains_key(tab));
                }
                assert(tabs@ =~= Map::<Seq<char>, TabState>::empty());
            }
        }
        if !tabs.is_empty() {
            self.put(session, tabs);
        }
    }

    /// Forgets a tab of a session, and the session with its last tab. Says whether the tab
    /// was there.
    pub fn remove(&mut self, session: &str, tab_id: &str) -> (removed: bool)
        requires
            old(self).well_formed(),
        ensures
            final(self).well_formed(),
            final(self)@ == without_tab(old(self)@, session@, tab_id@),
            removed == looked_up(old(self)@, session@, tab_id@) is Some,
    {
        let ghost before = self@;
        match self.take(session) {
            Some(mut tabs) => {
                let ghost were = tabs@;
                let removed = tabs.remove(tab_id).is_some();
                proof {
                    assert(tabs_view(tabs@) =~= tabs_view(were).remove(tab_id@));
                }
                if removed {
                    self.put_back(session, tabs);
                    proof {
                        assert(self@ =~= without_tab(before, session@, tab_id@));
                    }
                } else {
                    proof {
                        assert(tabs@ =~= were);
                    }
                    self.put(session, tabs);
                    proof {
                        assert(self@ =~= before);
                    }
                }
                removed
            },
            None => {
                proof {
                    assert(self@ =~= before);
                }
                false
            },
        }
    }

    /// Forgets the tabs of a session that belong to a workspace, and the session with its
    /// last tab. Says whether there were any.
    pub fn remove_workspace(&mut self, session: &str, workspace_id: &str) -> (removed: bool)
        requires
            old(self).well_formed(),
        ensures
            final(self).well_formed(),
            final(self)@ == without_workspace(old(self)@, session@, workspace_id@),
            removed == has_workspace(old(self)@, session@, workspace_id@),
    {
        let ghost before = self@;
        let mut prefix = workspace_id.to_owned();
        prefix.append(":");
        match self.take(session) {
            Some(mut tabs) => {
                let ghost were = tabs@;
                let removed = tabs.remove_prefixed(prefix.as_str());
                proof {
                    let rest = Set::new(|tab: Seq<char>| !in_workspace(workspace_id@, tab));
                    assert(tabs_view(tabs@) =~= tabs_view(were).restrict(rest));
                    if removed {
                        let tab = choose|tab: Seq<char>| #[trigger]
                            were.contains_key(tab) && prefix@.is_prefix_of(tab);
                        assert(tabs_in(before, session@).contains_key(tab));
                    } else {
                        assert forall|tab: Seq<char>| #[trigger]
                            tabs_in(before, session@).contains_key(tab) implies !in_workspace(
                            workspace_id@,
                            tab,
                        ) by {
                            assert(were.contains_key(tab));
                        }
                        assert(tabs_view(tabs@) =~= tabs_view(were));
                    }
                }
                if removed {
                    self.put_back(session, tabs);
                    proof {
                        assert(self@ =~= without_workspace(before, session@, workspace_id@));
                    }
                } else {
                    self.put(session, tabs);
                    proof {
                        assert(self@ =~= before);
                    }
                }
                removed
            },
            None => {
                proof {
                    assert(self@ =~= before);
                }
                false
            },
        }
    }
}

/// For how many milliseconds to wait before trying for the lock again.
pub const LOCK_RETRY_MILLIS: u64 = 5;

/// What trying for the lock on the stored states came to.
pub enum LockEvent {
    /// It is held.
    Acquired,
    /// Another process holds it, and the time for getting it is over or not.
    Busy { expired: bool },
    /// It could not be tried for.
    Failed(Failure),
}

/// What to do about the lock next.
pub enum LockAction {
    /// Read the stored states.
    Load,
    /// Try again after so many milliseconds.
    Retry { millis: u64 },
    /// Give up.
    GiveUp(Failure),
}

/// What to do about the lock on the stored states: while another process holds it, try
/// again until the time is over.
pub fn lock_step(event: LockEvent) -> (action: LockAction)
    ensures
        match event {
            LockEvent::Acquired => action is Load,
            LockEvent::Busy { expired: false } => action == (LockAction::Retry {
                millis: LOCK_RETRY_MILLIS,
            }),
            LockEvent::Busy { expired: true } => action matches LockAction::GiveUp(failure)
                && failure@ == FailureView::TimedOut("state lock timed out"@),
            LockEvent::Failed(failure) => action == LockAction::GiveUp(failure),
        },
{
    match event {
        LockEvent::Acquired => LockAction::Load,
        LockEvent::Busy { expired } => if expired {
            LockAction::GiveUp(Failure::TimedOut("state lock timed out".to_owned()))
        } else {
            LockAction::Retry { millis: LOCK_RETRY_MILLIS }
        },
        LockEvent::Failed(failure) => LockAction::GiveUp(failure),
    }
}

/// What reading the stored states from disk came to.
pub enum Loaded {
    /// They were there.
    Contents(StoredState),
    /// Nothing has been stored yet.
    Missing,
    /// They could not be read.
    Failed(Failure),
}

/// The states that were read, none where nothing has been stored yet, or why they were not.
pub open spec fn loaded_sessions(loaded: Loaded) -> Result<Sessions, FailureView> {
    match loaded {
        Loaded::Contents(state) => Ok(state@),
        Loaded::Missing => Ok(Map::empty()),
        Loaded::Failed(failure) => Err(failure@),
    }
}

/// The stored states, seen from one session.
pub struct Store {
    session: String,
    state: StoredState,
}

/// A [`Store`] as sequences of characters.
pub struct StoreView {
    pub session: Seq<char>,
    pub sessions: Sessions,
}

impl View for Store {
    type V = StoreView;

    closed spec fn view(&self) -> StoreView {
        StoreView { session: self.session@, sessions: self.state@ }
    }
}

impl StoreView {
    /// The state of a tab.
    pub open spec fn get(self, tab: Seq<char>) -> Option<TabStateView> {
        looked_up(self.sessions, self.session, tab)
    }

    /// The store once a tab has a new state.
    pub open spec fn saved(self, tab: Seq<char>, state: TabStateView) -> StoreView {
        StoreView { sessions: with_tab(self.sessions, self.session, tab, state), ..self }
    }

    /// The store once a tab is forgotten.
    pub open spec fn removed(self, tab: Seq<char>) -> StoreView {
        StoreView { sessions: without_tab(self.sessions, self.session, tab), ..self }
    }

    /// The store once the tabs of a workspace are forgotten.
    pub open spec fn workspace_removed(self, workspace: Seq<char>) -> StoreView {
        StoreView { sessions: without_workspace(self.sessions, self.session, workspace), ..self }
    }

    /// The names of the tabs, in ascending order.
    pub open spec fn tab_ids(self) -> Seq<Seq<char>> {
        text_map::in_order(tabs_in(self.sessions, self.session).dom())
    }

    /// The names of the tabs that belong to a workspace, in ascending order.
    pub open spec fn tab_ids_in_workspace(self, workspace: Seq<char>) -> Seq<Seq<char>> {
        text_map::in_order(workspace_tabs(self.sessions, self.session, workspace))
    }
}

impl Store {
    /// Whether the maps inside are in order, which the functions of this type establish and
    /// keep.
    pub closed spec fn well_formed(&self) -> bool {
        self.state.well_formed()
    }

    /// There are finitely many sessions, and each has finitely many tabs.
    pub proof fn law_states_are_finite(&self)
        ensures
            self@.sessions.dom().finite(),
            forall|session: Seq<char>|
                (#[trigger] tabs_in(self@.sessions, session)).dom().finite(),
    {
        self.state.law_states_are_finite();
    }

    /// The store of a session, from what reading the stored states came to. Where nothing
    /// has been stored yet, it has no tabs.
    pub fn open(session: &str, loaded: Loaded) -> (store: Result<Store, Failure>)
        requires
            loaded matches Loaded::Contents(state) ==> state.well_formed(),
        ensures
            match loaded_sessions(loaded) {
                Ok(sessions) => store matches Ok(s) && s.well_formed() && s@ == (StoreView {
                    session: session@,
                    sessions,
                }),
                Err(failure) => store matches Err(f) && f@ == failure,
            },
    {
        let state = match loaded {
            Loaded::Contents(state) => state,
            Loaded::Missing => StoredState::new(),
            Loaded::Failed(failure) => {
                return Err(failure);
            },
        };
        Ok(Store { session: session.to_owned(), state })
    }

    /// The states of all sessions, to be written to disk.
    pub fn contents(&self) -> (state: &StoredState)
        requires
            self.well_formed(),
        ensures
            state.well_formed(),
            state@ == self@.sessions,
    {
        &self.state
    }

    /// The state of a tab.
    pub fn get(&self, tab_id: &str) -> (state: Option<&TabState>)
        requires
            self.well_formed(),
        ensures
            policy::optional_state(state) == self@.get(tab_id@),
    {
        self.state.get(self.session.as_str(), tab_id)
    }

    /// Whether a tab has a state.
    pub fn contains(&self, tab_id: &str) -> (found: bool)
        requires
            self.well_formed(),
        ensures
            found == self@.get(tab_id@) is Some,
    {
        self.get(tab_id).is_some()
    }

    /// The names of the tabs, in ascending order.
    pub fn tab_ids(&self) -> (ids: Vec<String>)
        requires
            self.well_formed(),
        ensures
            text::texts(ids@) == self@.tab_ids(),
            text_map::ascending(text::texts(ids@)),
            text_map::lists(
                text::texts(ids@),
                tabs_in(self@.sessions, self@.session).dom(),
            ),
    {
        self.state.tab_ids(self.session.as_str())
    }

    /// The names of the tabs that belong to a workspace, in ascending order.
    pub fn tab_ids_in_workspace(&self, workspace_id: &str) -> (ids: Vec<String>)
        requires
            self.well_formed(),
        ensures
            text::texts(ids@) == self@.tab_ids_in_workspace(workspace_id@),
            text_map::ascending(text::texts(ids@)),
            text_map::lists(
                text::texts(ids@),
                workspace_tabs(self@.sessions, self@.session, workspace_id@),
            ),
    {
        let mut prefix = workspace_id.to_owned();
        prefix.append(":");
        let all = self.tab_ids();
        let ghost row = text::texts(all@);
        let mut ids: Vec<String> = Vec::new();
        let mut i: usize = 0;
        while i < all.len()
            invariant
                i <= all@.len(),
                row == text::texts(all@),
                prefix@ == workspace_id@ + ":"@,
                text_map::ascending(row),
                text_map::ascending(text::texts(ids@)),
                forall|k: Seq<char>| #[trigger]
                    text::texts(ids@).contains(k) <==> row.take(i as int).contains(k)
                        && in_workspace(workspace_id@, k),
            decreases all@.len() - i,
        {
            let ghost kept = text::texts(ids@);
            let ghost next = row[i as int];
            proof {
                assert(row.take(i + 1) =~= row.take(i as int).push(next));
                lemma_push_contains(row.take(i as int), next);
                lemma_push_contains(kept, next);
            }
            if starts_with(all[i].as_str(), prefix.as_str()) {
                ids.push(all[i].clone());
                proof {
                    let longer = text::texts(ids@);
                    assert(longer =~= kept.push(next));
                    assert forall|a: int, b: int|
                        0 <= a < b < longer.len() implies text::precedes(
                        #[trigger] longer[a],
                        #[trigger] longer[b],
                    ) by {
                        if b == kept.len() {
                            assert(kept.contains(kept[a]));
                            assert(row.take(i as int).contains(kept[a]));
                            let c = choose|c: int|
                                0 <= c < i && row.take(i as int)[c] == kept[a];
                            assert(text::precedes(row[c], row[i as int]));
                        } else {
                            assert(text::precedes(kept[a], kept[b]));
                        }
                    }
                }
            }
            i += 1;
        }
        proof {
            assert(row.take(row.len() as int) =~= row);
            let set = workspace_tabs(self@.sessions, self@.session, workspace_id@);
            assert(text_map::lists(text::texts(ids@), set));
            text_map::lemma_in_order(text::texts(ids@), set);
        }
        ids
    }

    /// Gives a tab a new state. Says whether there is anything to be written to disk: not
    /// where the tab had that state already.
    pub fn save_tab(&mut self, tab_id: &str, state: TabState) -> (changed: bool)
        requires
            old(self).well_formed(),
        ensures
            final(self).well_formed(),
            changed == (old(self)@.get(tab_id@) != Some(state@)),
            final(self)@ == old(self)@.saved(tab_id@, state@),
    {
        let ghost before = self@;
        let unchanged = match self.get(tab_id) {
            Some(known) => same_state(known, &state),
            None => false,
        };
        if unchanged {
            proof {
                let tabs = tabs_in(before.sessions, before.session);
                assert(tabs.insert(tab_id@, state@) =~= tabs);
                assert(before.sessions.insert(before.session, tabs) =~= before.sessions);
            }
            return false;
        }
        self.state.insert(self.session.as_str(), tab_id, state);
        true
    }

    /// Forgets a tab. Says whether there is anything to be written to disk.
    pub fn remove_tab(&mut self, tab_id: &str) -> (changed: bool)
        requires
            old(self).well_formed(),
        ensures
            final(self).well_formed(),
            changed == old(self)@.get(tab_id@) is Some,
            final(self)@ == old(self)@.removed(tab_id@),
    {
        self.state.remove(self.session.as_str(), tab_id)
    }

    /// Forgets the tabs of a workspace. Says whether there is anything to be written to
    /// disk.
    pub fn remove_workspace(&mut self, workspace_id: &str) -> (changed: bool)
        requires
            old(self).well_formed(),
        ensures
            final(self).well_formed(),
            changed == has_workspace(old(self)@.sessions, old(self)@.session, workspace_id@),
            final(self)@ == old(self)@.workspace_removed(workspace_id@),
    {
        self.state.remove_workspace(self.session.as_str(), workspace_id)
    }
}

/// What a row holds with one more text at its end.
pub proof fn lemma_push_contains(row: Seq<Seq<char>>, next: Seq<char>)
    ensures
        forall|k: Seq<char>| #[trigger]
            row.push(next).contains(k) <==> row.contains(k) || k == next,
{
    assert forall|k: Seq<char>| #[trigger] row.push(next).contains(k) <==> row.contains(k) || k
        == next by {
        if row.contains(k) {
            let i = choose|i: int| 0 <= i < row.len() && row[i] == k;
            assert(row.push(next)[i] == k);
        }
        if k == next {
            assert(row.push(next)[row.len() as int] == k);
        }
    }
}

} // verus!
