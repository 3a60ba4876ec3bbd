use herdr_auto_title::failure::Failure;
use herdr_auto_title::policy::TabState;
use herdr_auto_title::store::{
    lock_step, Loaded, LockAction, LockEvent, Store, StoredState, LOCK_RETRY_MILLIS,
};
use herdr_auto_title::text_map::TextMap;

fn pinned(label: &str) -> TabState {
    TabState::Pinned {
        label: Some(label.to_owned()),
    }
}

fn empty_store() -> Store {
    match Store::open("a.sock", Loaded::Missing) {
        Ok(store) => store,
        Err(_) => panic!("expected a store"),
    }
}

#[test]
fn saved_tabs_read_back_until_they_are_removed() {
    let mut store = empty_store();
    assert!(!store.contains("w1:t1"));
    assert!(store.save_tab("w1:t1", pinned("auth")));
    assert!(!store.save_tab("w1:t1", pinned("auth")));
    assert_eq!(store.get("w1:t1"), Some(&pinned("auth")));
    assert!(store.save_tab("w1:t1", pinned("billing")));
    assert_eq!(store.get("w1:t1"), Some(&pinned("billing")));
    assert!(store.save_tab("w1:t2", pinned("other")));
    assert!(store.remove_tab("w1:t1"));
    assert!(!store.remove_tab("w1:t1"));
    assert_eq!(store.get("w1:t1"), None);
    assert_eq!(store.get("w1:t2"), Some(&pinned("other")));
}

#[test]
fn a_session_is_forgotten_with_its_last_tab() {
    let mut store = empty_store();
    store.save_tab("w1:t1", pinned("auth"));
    assert_eq!(store.contents().session_names(), ["a.sock"]);
    store.remove_tab("w1:t1");
    assert!(store.contents().session_names().is_empty());
    store.save_tab("w1:t1", pinned("auth"));
    store.save_tab("w1:t2", pinned("auth"));
    store.remove_workspace("w1");
    assert!(store.contents().session_names().is_empty());
}

#[test]
fn tab_ids_come_in_order() {
    let mut store = empty_store();
    for id in ["w2:t1", "w1:t2", "w10:t1", "w1:t10", "w1:t1", "w1"] {
        store.save_tab(id, pinned(id));
    }
    assert_eq!(
        store.tab_ids(),
        ["w1", "w10:t1", "w1:t1", "w1:t10", "w1:t2", "w2:t1"]
    );
    assert_eq!(
        store.tab_ids_in_workspace("w1"),
        ["w1:t1", "w1:t10", "w1:t2"]
    );
    assert!(store.tab_ids_in_workspace("w").is_empty());
    assert!(empty_store().tab_ids().is_empty());
}

#[test]
fn removing_a_workspace_keeps_the_other_tabs() {
    let mut store = empty_store();
    for id in ["w1:t1", "w10:t1", "w1:t2", "w1"] {
        store.save_tab(id, pinned(id));
    }
    assert!(store.remove_workspace("w1"));
    assert_eq!(store.tab_ids(), ["w1", "w10:t1"]);
    assert!(!store.remove_workspace("w1"));
    assert!(!store.remove_workspace("w3"));
}

#[test]
fn sessions_do_not_touch_each_other() {
    let mut state = StoredState::from_entries(vec![("c.sock".to_owned(), Vec::new())]);
    state.insert("b.sock", "w1:t1", pinned("theirs"));
    state.insert("a.sock", "w1:t1", pinned("mine"));
    let mut store = match Store::open("a.sock", Loaded::Contents(state)) {
        Ok(store) => store,
        Err(_) => panic!("expected a store"),
    };
    assert_eq!(store.get("w1:t1"), Some(&pinned("mine")));
    store.save_tab("w1:t1", pinned("new"));
    assert_eq!(store.contents().get("b.sock", "w1:t1"), Some(&pinned("theirs")));
    store.remove_workspace("w1");
    assert_eq!(store.contents().get("b.sock", "w1:t1"), Some(&pinned("theirs")));
    assert_eq!(store.contents().session_names(), ["b.sock", "c.sock"]);
    assert_eq!(store.contents().tab_ids("b.sock"), ["w1:t1"]);
    assert!(store.contents().tab_ids("c.sock").is_empty());
}

#[test]
fn a_session_without_tabs_stays_where_nothing_is_removed() {
    let mut state = StoredState::from_entries(vec![("a.sock".to_owned(), Vec::new())]);
    assert!(!state.remove("a.sock", "w1:t1"));
    assert!(!state.remove_workspace("a.sock", "w1"));
    assert_eq!(state.session_names(), ["a.sock"]);
    state.insert("a.sock", "w1:t1", pinned("x"));
    assert_eq!(state.tab_ids("a.sock"), ["w1:t1"]);
}

#[test]
fn listed_states_read_back() {
    let entries = || {
        vec![
            ("b.sock".to_owned(), vec![("w1:t2".to_owned(), pinned("x"))]),
            (
                "a.sock".to_owned(),
                vec![
                    ("w1:t2".to_owned(), pinned("old")),
                    ("w1:t1".to_owned(), TabState::Pinned { label: None }),
                    ("w1:t2".to_owned(), pinned("new")),
                ],
            ),
            ("c.sock".to_owned(), Vec::new()),
            ("b.sock".to_owned(), vec![("w1:t1".to_owned(), pinned("y"))]),
        ]
    };
    let listed = vec![
        (
            "a.sock".to_owned(),
            vec![
                ("w1:t1".to_owned(), TabState::Pinned { label: None }),
                ("w1:t2".to_owned(), pinned("new")),
            ],
        ),
        ("b.sock".to_owned(), vec![("w1:t1".to_owned(), pinned("y"))]),
        ("c.sock".to_owned(), Vec::new()),
    ];
    let state = StoredState::from_entries(entries());
    assert_eq!(state.to_entries(), listed);
    assert_eq!(StoredState::from_entries(state.to_entries()).to_entries(), listed);
    assert!(StoredState::new().to_entries().is_empty());
}

#[test]
fn states_that_cannot_be_read_are_no_store() {
    match Store::open("a.sock", Loaded::Failed(Failure::Other("broken".to_owned()))) {
        Ok(_) => panic!("expected a failure"),
        Err(failure) => assert_eq!(failure, Failure::Other("broken".to_owned())),
    }
}

#[test]
fn the_lock_is_tried_for_until_the_time_is_over() {
    assert!(matches!(lock_step(LockEvent::Acquired), LockAction::Load));
    assert!(matches!(
        lock_step(LockEvent::Busy { expired: false }),
        LockAction::Retry { millis: 5 }
    ));
    assert_eq!(LOCK_RETRY_MILLIS, 5);
    match lock_step(LockEvent::Busy { expired: true }) {
        LockAction::GiveUp(failure) => {
            assert_eq!(failure, Failure::TimedOut("state lock timed out".to_owned()))
        }
        _ => panic!("expected to give up"),
    }
    match lock_step(LockEvent::Failed(Failure::Other("no".to_owned()))) {
        LockAction::GiveUp(failure) => assert_eq!(failure, Failure::Other("no".to_owned())),
        _ => panic!("expected to give up"),
    }
}

#[test]
fn maps_keep_their_keys_in_order() {
    let mut map: TextMap<u32> = TextMap::new();
    assert!(map.is_empty());
    for (key, value) in [("b", 2), ("a", 1), ("c", 3), ("b", 20)] {
        map.insert(key.to_owned(), value);
    }
    assert_eq!(map.keys(), ["a", "b", "c"]);
    assert_eq!(map.get("b"), Some(&20));
    assert_eq!(map.remove("b"), Some(20));
    assert_eq!(map.remove("b"), None);
    assert!(!map.remove_prefixed("b"));
    assert!(map.remove_prefixed("a"));
    assert_eq!(map.keys(), ["c"]);
    assert!(map.remove_prefixed(""));
    assert!(map.is_empty());
}
