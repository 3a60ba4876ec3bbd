//! What holds of the stored states through every change to them.

use vstd::prelude::*;
use vstd::string::*;

use crate::failure::{Failure, FailureView};
use crate::policy::{TabState, TabStateView};
use crate::store;
use crate::store::{Loaded, StoreView, StoredState};
use crate::text;
use crate::text_map;

verus! {

/// A tab has a state just where its session has one for it, and it is that one.
pub proof fn law_state_is_looked_up_in_its_session(
    sessions: store::Sessions,
    session: Seq<char>,
    tab: Seq<char>,
    state: TabStateView,
)
    ensures
        store::looked_up(sessions, session, tab) == Some(state) <==> sessions.contains_key(session)
            && sessions[session].contains_key(tab) && sessions[session][tab] == state,
        sessions.contains_key(session) ==> store::tabs_in(sessions, session) == sessions[session],
        !sessions.contains_key(session) ==> store::tabs_in(sessions, session).dom()
            == Set::<Seq<char>>::empty(),
        (StoreView { session, sessions }).get(tab) == store::looked_up(sessions, session, tab),
{
}

/// A tab belongs to a workspace just where its name is the whole name of the workspace, a
/// colon right after it, and some rest.
pub proof fn law_tab_names_begin_with_their_workspace(
    workspace: Seq<char>,
    tab: Seq<char>,
    rest: Seq<char>,
)
    ensures
        store::in_workspace(workspace, tab) <==> {
            &&& tab.len() > workspace.len()
            &&& forall|i: int| 0 <= i < workspace.len() ==> #[trigger] tab[i] == workspace[i]
            &&& tab[workspace.len() as int] == ':'
        },
        store::in_workspace(workspace, workspace + seq![':'] + rest),
{
    reveal_strlit(":");
    let start = workspace + ":"@;
    assert(start =~= workspace + seq![':']);
    let named = workspace + seq![':'] + rest;
    assert(named.subrange(0, start.len() as int) =~= start);
    if store::in_workspace(workspace, tab) {
        let cut = tab.subrange(0, start.len() as int);
        assert forall|i: int| 0 <= i < workspace.len() implies #[trigger] tab[i]
            == workspace[i] by {
            assert(cut[i] == start[i]);
        }
        assert(cut[workspace.len() as int] == start[workspace.len() as int]);
    }
    if tab.len() > workspace.len() && (forall|i: int|
        0 <= i < workspace.len() ==> #[trigger] tab[i] == workspace[i])
        && tab[workspace.len() as int] == ':' {
        assert(tab.subrange(0, start.len() as int) =~= start);
    }
}

/// No tab belongs to two workspaces whose names hold no colon.
pub proof fn law_workspaces_share_no_tab(a: Seq<char>, b: Seq<char>, tab: Seq<char>)
    requires
        store::in_workspace(a, tab),
        store::in_workspace(b, tab),
        forall|i: int| 0 <= i < a.len() ==> #[trigger] a[i] != ':',
        forall|i: int| 0 <= i < b.len() ==> #[trigger] b[i] != ':',
    ensures
        a == b,
{
    law_tab_names_begin_with_their_workspace(a, tab, Seq::empty());
    law_tab_names_begin_with_their_workspace(b, tab, Seq::empty());
    if a.len() < b.len() {
        assert(tab[a.len() as int] == b[a.len() as int]);
    } else if b.len() < a.len() {
        assert(tab[b.len() as int] == a[b.len() as int]);
    }
    assert(a =~= b) by {
        assert forall|i: int| 0 <= i < a.len() implies a[i] == b[i] by {
            assert(tab[i] == a[i]);
            assert(tab[i] == b[i]);
        }
    }
}

/// A session has a workspace just where one of the tabs that belong to it has a state.
pub proof fn law_workspace_is_there_with_its_tabs(
    sessions: store::Sessions,
    session: Seq<char>,
    workspace: Seq<char>,
)
    ensures
        store::has_workspace(sessions, session, workspace) <==> exists|tab: Seq<char>|
            #[trigger]
            store::in_workspace(workspace, tab) && store::looked_up(sessions, session, tab) is Some,
{
    if store::has_workspace(sessions, session, workspace) {
        let tab = choose|tab: Seq<char>| #[trigger]
            store::tabs_in(sessions, session).contains_key(tab) && store::in_workspace(
                workspace,
                tab,
            );
        assert(store::in_workspace(workspace, tab));
        assert(store::looked_up(sessions, session, tab) is Some);
    }
    if exists|tab: Seq<char>| #[trigger]
        store::in_workspace(workspace, tab) && store::looked_up(sessions, session, tab) is Some {
        let tab = choose|tab: Seq<char>| #[trigger]
            store::in_workspace(workspace, tab) && store::looked_up(sessions, session, tab) is Some;
        assert(store::tabs_in(sessions, session).contains_key(tab));
    }
}

/// Where there is nothing to change, nothing changes: not by saving the state that a tab has,
/// nor by forgetting a tab without a state, nor a workspace without such tabs.
pub proof fn law_nothing_changes_without_need(
    store: StoreView,
    tab: Seq<char>,
    state: TabStateView,
    workspace: Seq<char>,
)
    ensures
        store.get(tab) == Some(state) ==> store.saved(tab, state) == store,
        store.get(tab) is None ==> store.removed(tab) == store,
        !store::has_workspace(store.sessions, store.session, workspace)
            ==> store.workspace_removed(workspace) == store,
{
    if store.get(tab) == Some(state) {
        let tabs = store::tabs_in(store.sessions, store.session);
        assert(tabs.insert(tab, state) =~= tabs);
        assert(store.saved(tab, state).sessions =~= store.sessions);
    }
}

/// A session that loses tabs is there afterwards just where one of its tabs still has a
/// state; one in which a tab is saved is there.
pub proof fn law_session_is_there_with_its_tabs(
    store: StoreView,
    tab: Seq<char>,
    state: TabStateView,
    workspace: Seq<char>,
)
    ensures
        store.saved(tab, state).sessions.contains_key(store.session),
        store.get(tab) is Some ==> (store.removed(tab).sessions.contains_key(store.session)
            <==> exists|other: Seq<char>| #[trigger] store.removed(tab).get(other) is Some),
        store::has_workspace(store.sessions, store.session, workspace) ==> (
        store.workspace_removed(workspace).sessions.contains_key(store.session)
            <==> exists|other: Seq<char>| #[trigger]
            store.workspace_removed(workspace).get(other) is Some),
{
    let tabs = store::tabs_in(store.sessions, store.session);
    let rest = tabs.restrict(Set::new(|t: Seq<char>| !store::in_workspace(workspace, t)));
    lemma_left_session(store, tabs.remove(tab), store.removed(tab), store.get(tab) is Some);
    lemma_left_session(
        store,
        rest,
        store.workspace_removed(workspace),
        store::has_workspace(store.sessions, store.session, workspace),
    );
}

proof fn lemma_left_session(
    store: StoreView,
    tabs: Map<Seq<char>, TabStateView>,
    after: StoreView,
    changed: bool,
)
    requires
        changed ==> after == (StoreView {
            sessions: store::left_with(store.sessions, store.session, tabs),
            ..store
        }),
    ensures
        changed ==> (after.sessions.contains_key(store.session) <==> exists|other: Seq<char>|
            #[trigger]
            after.get(other) is Some),
{
    if changed {
        if tabs != Map::<Seq<char>, TabStateView>::empty() {
            assert(exists|other: Seq<char>| #[trigger] after.get(other) is Some) by {
                if forall|other: Seq<char>| !(#[trigger] after.get(other) is Some) {
                    assert forall|other: Seq<char>| !tabs.contains_key(other) by {
                        assert(!(after.get(other) is Some));
                    }
                    assert(tabs =~= Map::<Seq<char>, TabStateView>::empty());
                }
            }
        } else {
            assert forall|other: Seq<char>| !(#[trigger] after.get(other) is Some) by {}
        }
    }
}

/// Every tab in a list is read from it, with its state, where no later one has its name; and
/// no other tab is.
pub proof fn law_listed_tabs_are_all_read(entries: Seq<(String, TabState)>, i: int, tab: Seq<char>)
    requires
        0 <= i < entries.len(),
        forall|j: int| i < j < entries.len() ==> (#[trigger] entries[j]).0@ != entries[i].0@,
    ensures
        store::listed_tabs(entries).contains_key(entries[i].0@),
        store::listed_tabs(entries)[entries[i].0@] == entries[i].1@,
        store::listed_tabs(entries).contains_key(tab) ==> exists|j: int|
            0 <= j < entries.len() && (#[trigger] entries[j]).0@ == tab,
    decreases entries.len(),
{
    let rest = entries.drop_last();
    if i < rest.len() {
        assert forall|j: int| i < j < rest.len() implies (#[trigger] rest[j]).0@
            != rest[i].0@ by {
            assert(entries[j].0@ != entries[i].0@);
        }
        law_listed_tabs_are_all_read(rest, i, tab);
        assert(entries[entries.len() - 1].0@ != entries[i].0@);
    }
    lemma_listed_tabs_are_named(entries, tab);
}

proof fn lemma_listed_tabs_are_named(entries: Seq<(String, TabState)>, tab: Seq<char>)
    ensures
        store::listed_tabs(entries).contains_key(tab) ==> exists|j: int|
            0 <= j < entries.len() && (#[trigger] entries[j]).0@ == tab,
    decreases entries.len(),
{
    if entries.len() > 0 {
        let rest = entries.drop_last();
        lemma_listed_tabs_are_named(rest, tab);
        if store::listed_tabs(entries).contains_key(tab) {
            if entries.last().0@ == tab {
                assert(entries[entries.len() - 1].0@ == tab);
            } else {
                let j = choose|j: int| 0 <= j < rest.len() && (#[trigger] rest[j]).0@ == tab;
                assert(entries[j].0@ == tab);
            }
        }
    }
}

/// Every session in a list is read from it, with its tabs, where no later one has its name;
/// and no other session is.
pub proof fn law_listed_sessions_are_all_read(
    entries: Seq<(String, Vec<(String, TabState)>)>,
    i: int,
    session: Seq<char>,
)
    requires
        0 <= i < entries.len(),
        forall|j: int| i < j < entries.len() ==> (#[trigger] entries[j]).0@ != entries[i].0@,
    ensures
        store::listed_sessions(entries).contains_key(entries[i].0@),
        store::listed_sessions(entries)[entries[i].0@] == store::listed_tabs(entries[i].1@),
        store::listed_sessions(entries).contains_key(session) ==> exists|j: int|
            0 <= j < entries.len() && (#[trigger] entries[j]).0@ == session,
    decreases entries.len(),
{
    let rest = entries.drop_last();
    if i < rest.len() {
        assert forall|j: int| i < j < rest.len() implies (#[trigger] rest[j]).0@
            != rest[i].0@ by {
            assert(entries[j].0@ != entries[i].0@);
        }
        law_listed_sessions_are_all_read(rest, i, session);
        assert(entries[entries.len() - 1].0@ != entries[i].0@);
    }
    lemma_listed_sessions_are_named(entries, session);
}

proof fn lemma_listed_sessions_are_named(
    entries: Seq<(String, Vec<(String, TabState)>)>,
    session: Seq<char>,
)
    ensures
        store::listed_sessions(entries).contains_key(session) ==> exists|j: int|
            0 <= j < entries.len() && (#[trigger] entries[j]).0@ == session,
    decreases entries.len(),
{
    if entries.len() > 0 {
        let rest = entries.drop_last();
        lemma_listed_sessions_are_named(rest, session);
        if store::listed_sessions(entries).contains_key(session) {
            if entries.last().0@ == session {
                assert(entries[entries.len() - 1].0@ == session);
            } else {
                let j = choose|j: int| 0 <= j < rest.len() && (#[trigger] rest[j]).0@ == session;
                assert(entries[j].0@ == session);
            }
        }
    }
}

/// Nothing is read from an empty list, nor where nothing has been stored yet; and states that
/// cannot be read are none.
pub proof fn law_nothing_stored_is_nothing_read(failure: Failure)
    ensures
        store::listed_tabs(Seq::empty()).dom() == Set::<Seq<char>>::empty(),
        store::listed_sessions(Seq::empty()).dom() == Set::<Seq<char>>::empty(),
        store::loaded_sessions(Loaded::Missing) matches Ok(sessions) && sessions.dom() == Set::<
            Seq<char>,
        >::empty(),
        store::loaded_sessions(Loaded::Failed(failure)) == Err::<store::Sessions, FailureView>(
            failure@,
        ),
{
}

/// The names in a list are the names of its entries, one for one.
pub proof fn law_names_of_a_list(
    tabs: Seq<(String, TabState)>,
    sessions: Seq<(String, Vec<(String, TabState)>)>,
)
    ensures
        store::tab_names_of(tabs).len() == tabs.len(),
        forall|i: int|
            0 <= i < tabs.len() ==> store::tab_names_of(tabs)[i] == (#[trigger] tabs[i]).0@,
        store::session_names_of(sessions).len() == sessions.len(),
        forall|i: int|
            0 <= i < sessions.len() ==> store::session_names_of(sessions)[i] == (
            #[trigger] sessions[i]).0@,
{
}

/// A tab that was given a state has that state, and no other tab has changed.
pub proof fn law_saved_tab_reads_back(
    store: StoreView,
    tab: Seq<char>,
    state: TabStateView,
    other: Seq<char>,
)
    ensures
        store.saved(tab, state).get(tab) == Some(state),
        other != tab ==> store.saved(tab, state).get(other) == store.get(other),
{
}

/// A tab that was forgotten has no state, and no other tab has changed.
pub proof fn law_removed_tab_is_gone(store: StoreView, tab: Seq<char>, other: Seq<char>)
    ensures
        store.removed(tab).get(tab) is None,
        other != tab ==> store.removed(tab).get(other) == store.get(other),
{
    let tabs = store::tabs_in(store.sessions, store.session);
    lemma_left_with(store, tabs.remove(tab), other);
    lemma_left_with(store, tabs.remove(tab), tab);
}

/// Once a workspace is forgotten none of its tabs has a state, and no other tab has changed.
pub proof fn law_removed_workspace_is_gone(
    store: StoreView,
    workspace: Seq<char>,
    tab: Seq<char>,
)
    ensures
        store.workspace_removed(workspace).get(tab) == if store::in_workspace(workspace, tab) {
            None
        } else {
            store.get(tab)
        },
{
    let tabs = store::tabs_in(store.sessions, store.session);
    let rest = tabs.restrict(Set::new(|t: Seq<char>| !store::in_workspace(workspace, t)));
    lemma_left_with(store, rest, tab);
    if store.get(tab) is Some && store::in_workspace(workspace, tab) {
        assert(tabs.contains_key(tab));
    }
}

/// A session that is left with some tabs has those and no others.
proof fn lemma_left_with(
    store: StoreView,
    tabs: Map<Seq<char>, TabStateView>,
    tab: Seq<char>,
)
    ensures
        store::looked_up(
            store::left_with(store.sessions, store.session, tabs),
            store.session,
            tab,
        ) == if tabs.contains_key(tab) {
            Some(tabs[tab])
        } else {
            None
        },
{
}

/// No change to one session changes another.
pub proof fn law_sessions_are_isolated(
    store: StoreView,
    tab: Seq<char>,
    state: TabStateView,
    workspace: Seq<char>,
    other: Seq<char>,
)
    requires
        other != store.session,
    ensures
        ({
            let changed = seq![
                store.saved(tab, state),
                store.removed(tab),
                store.workspace_removed(workspace),
            ];
            forall|i: int|
                0 <= i < changed.len() ==> {
                    &&& (#[trigger] changed[i]).session == store.session
                    &&& changed[i].sessions.contains_key(other)
                        == store.sessions.contains_key(other)
                    &&& store::tabs_in(changed[i].sessions, other) == store::tabs_in(
                        store.sessions,
                        other,
                    )
                }
        }),
{
}

/// Whether every session has a tab.
pub open spec fn no_empty_session(sessions: store::Sessions) -> bool {
    forall|session: Seq<char>| #[trigger]
        sessions.contains_key(session) ==> sessions[session] != Map::<
            Seq<char>,
            TabStateView,
        >::empty()
}

/// A session is forgotten with its last tab: where every session had a tab, every session
/// has one after each change.
pub proof fn law_no_session_is_kept_empty(
    store: StoreView,
    tab: Seq<char>,
    state: TabStateView,
    workspace: Seq<char>,
)
    requires
        no_empty_session(store.sessions),
    ensures
        no_empty_session(store.saved(tab, state).sessions),
        no_empty_session(store.removed(tab).sessions),
        no_empty_session(store.workspace_removed(workspace).sessions),
{
    assert(store::tabs_in(store.sessions, store.session).insert(tab, state).contains_key(tab));
}

/// Forgetting a tab undoes saving it, where the tab had no state before.
pub proof fn law_removing_undoes_saving(store: StoreView, tab: Seq<char>, state: TabStateView)
    requires
        no_empty_session(store.sessions),
        store.get(tab) is None,
    ensures
        store.saved(tab, state).removed(tab) == store,
{
    let tabs = store::tabs_in(store.sessions, store.session);
    let saved = store.saved(tab, state);
    assert(store::tabs_in(saved.sessions, store.session) == tabs.insert(tab, state));
    assert(tabs.insert(tab, state).remove(tab) =~= tabs);
    assert(saved.removed(tab).sessions =~= store.sessions);
}

/// Saving and forgetting are settled the first time: doing it again changes nothing.
pub proof fn law_changes_are_settled(
    store: StoreView,
    tab: Seq<char>,
    state: TabStateView,
    workspace: Seq<char>,
)
    ensures
        store.saved(tab, state).saved(tab, state) == store.saved(tab, state),
        store.removed(tab).removed(tab) == store.removed(tab),
        store.workspace_removed(workspace).workspace_removed(workspace)
            == store.workspace_removed(workspace),
{
    let tabs = store::tabs_in(store.sessions, store.session);
    let saved = store.saved(tab, state);
    assert(tabs.insert(tab, state).insert(tab, state) =~= tabs.insert(tab, state));
    assert(saved.saved(tab, state).sessions =~= saved.sessions);
    law_removed_tab_is_gone(store, tab, tab);
    let cleared = store.workspace_removed(workspace);
    assert forall|t: Seq<char>| #[trigger]
        store::tabs_in(cleared.sessions, cleared.session).contains_key(
            t,
        ) implies !store::in_workspace(workspace, t) by {
        law_removed_workspace_is_gone(store, workspace, t);
        assert(cleared.get(t) is Some);
    }
}

/// The states that are written to disk as a list are the ones that are read from that list.
pub proof fn law_written_states_read_back(
    written: StoredState,
    entries: Seq<(String, Vec<(String, TabState)>)>,
    read: StoredState,
)
    requires
        store::listed_sessions(entries) == written@,
        read@ == store::listed_sessions(entries),
    ensures
        store::loaded_sessions(Loaded::Contents(read)) == Ok::<store::Sessions, FailureView>(
            written@,
        ),
{
}

/// Every finite set of texts can be written in ascending order.
pub proof fn lemma_order_exists(set: Set<Seq<char>>)
    requires
        set.finite(),
    ensures
        text_map::ascending(text_map::in_order(set)),
        text_map::lists(text_map::in_order(set), set),
{
    let row = lemma_some_order(set);
    text_map::lemma_in_order(row, set);
}

/// The lock is tried for again after five thousandths of a second.
pub proof fn law_lock_is_tried_for_again_soon()
    ensures
        store::LOCK_RETRY_MILLIS == 5,
{
}

/// Texts in ascending order are all there, each once, and each before those that follow it.
pub proof fn law_texts_in_order(set: Set<Seq<char>>, one: Seq<char>)
    requires
        set.finite(),
    ensures
        text_map::in_order(set).contains(one) <==> set.contains(one),
        forall|i: int, j: int|
            0 <= i < j < text_map::in_order(set).len() ==> text::precedes(
                #[trigger] text_map::in_order(set)[i],
                #[trigger] text_map::in_order(set)[j],
            ),
{
    lemma_order_exists(set);
}

proof fn lemma_some_order(set: Set<Seq<char>>) -> (row: Seq<Seq<char>>)
    requires
        set.finite(),
    ensures
        text_map::ascending(row),
        text_map::lists(row, set),
    decreases set.len(),
{
    if set.len() == 0 {
        let row = Seq::<Seq<char>>::empty();
        assert(set =~= Set::empty());
        row
    } else {
        let one = set.choose();
        let rest = lemma_some_order(set.remove(one));
        assert(!rest.contains(one));
        let row = lemma_insert_in_order(rest, one);
        assert forall|k: Seq<char>| #[trigger] row.contains(k) <==> set.contains(k) by {
            assert(rest.contains(k) <==> set.remove(one).contains(k));
        }
        row
    }
}

/// A new text has a place in an ascending row.
proof fn lemma_insert_in_order(row: Seq<Seq<char>>, one: Seq<char>) -> (longer: Seq<Seq<char>>)
    requires
        text_map::ascending(row),
        !row.contains(one),
    ensures
        text_map::ascending(longer),
        forall|k: Seq<char>| #[trigger] longer.contains(k) <==> row.contains(k) || k == one,
    decreases row.len(),
{
    if row.len() == 0 {
        let longer = seq![one];
        assert(longer[0] == one);
        longer
    } else {
        let last = row.last();
        assert(row.contains(last)) by {
            assert(row[row.len() - 1] == last);
        }
        text::lemma_precedes_is_total(last, one);
        if text::precedes(last, one) {
            let longer = row.push(one);
            assert forall|i: int, j: int| 0 <= i < j < longer.len() implies text::precedes(
                #[trigger] longer[i],
                #[trigger] longer[j],
            ) by {
                if j == row.len() {
                    if i < row.len() - 1 {
                        assert(text::precedes(row[i], row[row.len() - 1]));
                        text::lemma_precedes_is_transitive(row[i], last, one);
                    }
                } else {
                    assert(text::precedes(row[i], row[j]));
                }
            }
            store::lemma_push_contains(row, one);
            longer
        } else {
            let shorter = row.drop_last();
            store::lemma_push_contains(shorter, last);
            assert(shorter.push(last) =~= row);
            let start = lemma_insert_in_order(shorter, one);
            let longer = start.push(last);
            store::lemma_push_contains(start, last);
            assert forall|i: int, j: int| 0 <= i < j < longer.len() implies text::precedes(
                #[trigger] longer[i],
                #[trigger] longer[j],
            ) by {
                if j == start.len() {
                    assert(start.contains(start[i]));
                    if start[i] != one {
                        assert(shorter.contains(start[i]));
                        let k = choose|k: int| 0 <= k < shorter.len() && shorter[k] == start[i];
                        assert(text::precedes(row[k], row[row.len() - 1]));
                    }
                } else {
                    assert(text::precedes(start[i], start[j]));
                }
            }
            longer
        }
    }
}

/// The names of the tabs are those of the tabs that have a state, each once and in order.
pub proof fn law_tab_ids_name_the_known_tabs(store: StoreView, tab: Seq<char>)
    requires
        store::tabs_in(store.sessions, store.session).dom().finite(),
    ensures
        text_map::ascending(store.tab_ids()),
        forall|i: int, j: int|
            0 <= i < j < store.tab_ids().len() ==> text::precedes(
                #[trigger] store.tab_ids()[i],
                #[trigger] store.tab_ids()[j],
            ),
        store.tab_ids().contains(tab) <==> store.get(tab) is Some,
{
    lemma_order_exists(store::tabs_in(store.sessions, store.session).dom());
}

/// The names of the tabs of a workspace are those of its tabs that have a state, each once
/// and in order.
pub proof fn law_workspace_tab_ids_name_its_known_tabs(
    store: StoreView,
    workspace: Seq<char>,
    tab: Seq<char>,
)
    requires
        store::tabs_in(store.sessions, store.session).dom().finite(),
    ensures
        text_map::ascending(store.tab_ids_in_workspace(workspace)),
        forall|i: int, j: int|
            0 <= i < j < store.tab_ids_in_workspace(workspace).len() ==> text::precedes(
                #[trigger] store.tab_ids_in_workspace(workspace)[i],
                #[trigger] store.tab_ids_in_workspace(workspace)[j],
            ),
        store.tab_ids_in_workspace(workspace).contains(tab) <==> store.get(tab) is Some
            && store::in_workspace(workspace, tab),
{
    let set = store::workspace_tabs(store.sessions, store.session, workspace);
    lemma_order_exists(set);
}

} // verus!
