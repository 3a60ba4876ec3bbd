use std::collections::BTreeSet;

use herdr_auto_title::command::{command_step, CommandAction, CommandEvent, CommandOutput};
use herdr_auto_title::failure::{Failure, HerdrCommandError};
use herdr_auto_title::policy::{AgentStatus, TabState};
use herdr_auto_title::runtime::{EventData, EventPane, EventTab, Pane, Request, Runtime, Tab};
use herdr_auto_title::store::{Loaded, Store, StoredState};
use serde_json::Value;

const STATUS_EVENT: &str = r#"{
    "event":"PaneAgentStatusChanged",
    "data":{
        "type":"pane_agent_status_changed",
        "pane_id":"w1:p1",
        "workspace_id":"w1",
        "agent_status":"idle",
        "agent":"opencode"
    }
}"#;
const TAB_CREATED_EVENT: &str = r#"{"event":"tab_created","data":{"type":"tab_created","tab":{"tab_id":"w1:t1","label":"1"}}}"#;
const SOCKET: &str = "test.sock";

#[test]
fn lifecycle_event_renames_a_default_tab() {
    let mut fixture = Fixture::new("opencode", "Fix OAuth callback", false);
    fixture.run_event(STATUS_EVENT).unwrap();

    assert_eq!(
        fixture.renamed,
        "✓ Fix OAuth callback"
    );
    assert!(fixture.state().contains("tracking"));
}

#[test]
fn custom_label_is_pinned_but_receives_status() {
    let mut fixture = Fixture::new("auth", "Fix OAuth callback", false);
    fixture.run_event(STATUS_EVENT).unwrap();

    assert_eq!(fixture.renamed, "✓ auth");
    assert!(fixture.state().contains("pinned"));
}

#[test]
fn authoritative_tab_status_wins_over_the_event_payload() {
    let mut fixture = Fixture::new("1", "Fix OAuth callback", false);
    fixture.set_status("blocked");
    fixture.run_event(STATUS_EVENT).unwrap();

    assert_eq!(
        fixture.renamed,
        "◉ Fix OAuth callback"
    );
}

#[test]
fn status_changes_preserve_the_base_title() {
    let mut fixture = Fixture::new("1", "Fix OAuth callback", false);
    fixture.run_event(STATUS_EVENT).unwrap();
    fixture.set_status("blocked");
    fixture.run_event(STATUS_EVENT).unwrap();

    assert_eq!(
        fixture.renamed,
        "◉ Fix OAuth callback"
    );
    let state = fixture.state();
    assert!(state.contains("Fix OAuth callback"));
    assert!(!state.contains('◉'));
}

#[test]
fn tab_focus_refreshes_done_to_idle_state() {
    let mut fixture = Fixture::new("1", "Fix OAuth callback", false);
    fixture.run_event(STATUS_EVENT).unwrap();
    fixture.set_status("done");
    fixture.run_event(STATUS_EVENT).unwrap();
    fixture.set_status("idle");
    fixture.run_event(
            r#"{"event":"tab.focused","data":{"type":"tab_focused","tab_id":"w1:t1","workspace_id":"w1"}}"#,
        )
        .unwrap();

    assert_eq!(
        fixture.renamed,
        "✓ Fix OAuth callback"
    );
}

#[test]
fn manual_rename_updates_the_pinned_base_label() {
    let mut fixture = Fixture::new("auth", "Fix OAuth callback", false);
    fixture.run_event(STATUS_EVENT).unwrap();
    fixture.tab_label = "billing".to_owned();
    fixture.set_status("blocked");
    fixture.run_event(
            r#"{"event":"tab.renamed","data":{"type":"tab_renamed","tab_id":"w1:t1","workspace_id":"w1","label":"billing"}}"#,
        )
        .unwrap();

    assert_eq!(fixture.renamed, "◉ billing");
    assert!(fixture.state().contains("billing"));
}

#[test]
fn startup_reconciles_restored_status_icons() {
    let mut fixture = Fixture::new("1", "Fix OAuth callback", false);
    fixture.run_event(STATUS_EVENT).unwrap();
    fixture.set_status("unknown");
    fixture.reconcile_startup().unwrap();

    assert_eq!(
        fixture.renamed,
        "○ Fix OAuth callback"
    );
}

#[test]
fn startup_prunes_tabs_confirmed_missing() {
    let mut fixture = Fixture::new("1", "Fix OAuth callback", false);
    fixture.run_event(STATUS_EVENT).unwrap();
    fixture.tab_exists = false;

    fixture.reconcile_startup().unwrap();

    assert!(!fixture.state().contains("w1:t1"));
}

#[test]
fn failed_rename_leaves_recoverable_tracking_state() {
    let mut fixture = Fixture::new("1", "Fix OAuth callback", true);
    assert!(fixture.run_event(STATUS_EVENT).is_err());

    let state = fixture.state();
    assert!(state.contains("tracking"));
    assert!(state.contains("Fix OAuth callback"));
}

#[test]
fn tab_close_removes_saved_state() {
    let mut fixture = Fixture::new("1", "Fix OAuth callback", false);
    fixture.run_event(STATUS_EVENT).unwrap();
    fixture.run_event(
            r#"{"event":"TabClosed","data":{"type":"tab_closed","tab_id":"w1:t1","workspace_id":"w1"}}"#,
        )
        .unwrap();

    assert!(!fixture.state().contains("w1:t1"));
}

#[test]
fn workspace_close_removes_all_tab_state() {
    let mut fixture = Fixture::new("1", "Fix OAuth callback", false);
    fixture.run_event(STATUS_EVENT).unwrap();
    fixture.run_event(
            r#"{"event":"workspace_closed","data":{"type":"workspace_closed","workspace_id":"w1"}}"#,
        )
        .unwrap();

    assert!(!fixture.state().contains("w1:t1"));
}

#[test]
fn tab_creation_clears_reused_session_ids() {
    let mut fixture = Fixture::new("1", "Fix OAuth callback", false);
    fixture.run_event(STATUS_EVENT).unwrap();
    fixture.tab_label = "1".to_owned();
    fixture.run_event(TAB_CREATED_EVENT).unwrap();

    assert!(!fixture.state().contains("w1:t1"));
}

#[test]
fn delayed_tab_creation_does_not_erase_newer_state() {
    let mut fixture = Fixture::new("1", "Fix OAuth callback", false);
    fixture.run_event(STATUS_EVENT).unwrap();
    fixture.run_event(TAB_CREATED_EVENT).unwrap();

    assert!(fixture.state().contains("w1:t1"));
}

#[test]
fn multi_pane_tab_keeps_its_title_but_receives_aggregate_status() {
    let mut fixture = Fixture::new_with_panes("1", "Fix OAuth callback", false, 2);
    fixture.run_event(STATUS_EVENT).unwrap();
    assert_eq!(fixture.renamed, "✓ 1");
}

#[test]
fn pane_close_refreshes_the_remaining_tab_status() {
    let mut fixture = Fixture::new_with_panes("1", "Fix OAuth callback", false, 2);
    fixture.run_event(STATUS_EVENT).unwrap();
    fixture.set_status("done");
    fixture.run_event(
            r#"{"event":"pane.closed","data":{"type":"pane_closed","pane_id":"w1:p2","workspace_id":"w1"}}"#,
        )
        .unwrap();

    assert_eq!(fixture.renamed, "● 1");
}

#[test]
fn pane_move_refreshes_the_destination_before_the_source() {
    let mut fixture = Fixture::new("1", "Fix OAuth callback", false);
    fixture.run_event(STATUS_EVENT).unwrap();
    let mut store = Store::open(SOCKET, fixture.load()).ok().unwrap();
    assert!(store.save_tab(
        "w1:t2",
        TabState::Tracking {
            labels: ["1", "Fix OAuth callback"]
                .into_iter()
                .map(str::to_owned)
                .collect(),
        },
    ));
    fixture.disk = Some(copy_of(store.contents()));
    fixture.command_log.clear();
    fixture.set_status("blocked");
    fixture.run_event(
            r#"{"event":"pane.moved","data":{"type":"pane_moved","previous_tab_id":"w1:t2","pane":{"pane_id":"w1:p1","tab_id":"w1:t1"}}}"#,
        )
        .unwrap();

    assert_eq!(
        fixture.renamed,
        "◉ Fix OAuth callback"
    );
    let commands = fixture.command_log.clone();
    let destination = commands.find("tab:get:w1:t1").unwrap();
    let source = commands.find("tab:get:w1:t2").unwrap();
    assert!(destination < source);
}

#[test]
fn stalled_herdr_command_times_out() {
    let mut fixture = Fixture::new("1", "Fix OAuth callback", false);
    fixture.stalls_for_millis = 5000;
    fixture.event_timeout_millis = 20;

    assert!(fixture.run_event(STATUS_EVENT).is_err());
}

#[test]
fn other_agents_in_unknown_tabs_are_ignored() {
    let mut fixture = Fixture::new("1", "Fix OAuth callback", false);
    fixture.agent = "other".to_owned();
    fixture.run_event(STATUS_EVENT).unwrap();
    assert_eq!(fixture.renamed, "");
    assert_eq!(fixture.command_log, "pane:get:w1:p1\n");
    assert!(fixture.disk.is_none());
}

#[test]
fn other_agents_in_known_tabs_update_the_status_alone() {
    let mut fixture = Fixture::new("1", "Fix OAuth callback", false);
    fixture.run_event(STATUS_EVENT).unwrap();
    fixture.agent = "other".to_owned();
    fixture.title = "Something else".to_owned();
    fixture.set_status("done");
    fixture.run_event(STATUS_EVENT).unwrap();
    assert_eq!(fixture.renamed, "● Fix OAuth callback");
}

#[test]
fn a_settled_tab_is_left_alone() {
    let mut fixture = Fixture::new("1", "Fix OAuth callback", false);
    fixture.run_event(STATUS_EVENT).unwrap();
    fixture.command_log.clear();
    fixture.fail_flush = true;
    fixture.fail_rename = true;
    fixture.run_event(STATUS_EVENT).unwrap();
    fixture.reconcile_startup().unwrap();
    assert_eq!(
        fixture.command_log,
        "pane:get:w1:p1\ntab:get:w1:t1\ntab:get:w1:t1\n"
    );
}

#[test]
fn a_pinned_tab_keeps_its_label_without_a_write() {
    let mut runtime = Runtime::new(SOCKET);
    runtime.update_from_pane("w1:p1".to_owned());
    let state = StoredState::from_entries(vec![(
        SOCKET.to_owned(),
        vec![(
            "w1:t1".to_owned(),
            TabState::Pinned {
                label: Some("auth".to_owned()),
            },
        )],
    )]);
    runtime.opened(Loaded::Contents(state));
    runtime.pane_read(Ok(Pane {
        agent: Some("opencode".to_owned()),
        tab_id: "w1:t1".to_owned(),
        terminal_title_stripped: Some("Fix OAuth callback".to_owned()),
    }));
    assert_eq!(
        runtime.tab_read(Ok(Tab {
            label: "✓ auth".to_owned(),
            pane_count: 1,
            agent_status: AgentStatus::Blocked,
        })),
        Request::Rename {
            tab_id: "w1:t1".to_owned(),
            to: "◉ auth".to_owned(),
        }
    );
    assert_eq!(runtime.renamed(Ok(())), Request::Finish(Ok(())));
}

#[test]
fn a_state_that_cannot_be_stored_is_not_followed_by_a_rename() {
    let mut fixture = Fixture::new("1", "Fix OAuth callback", false);
    fixture.fail_flush = true;
    assert_eq!(
        fixture.run_event(STATUS_EVENT),
        Err(Failure::Other("disk full".to_owned()))
    );
    assert_eq!(fixture.renamed, "");
    assert_eq!(fixture.tab_label, "1");
}

#[test]
fn the_first_failure_is_reported_and_the_work_goes_on() {
    let mut fixture = Fixture::new("1", "Fix OAuth callback", false);
    let mut state = StoredState::new();
    for tab_id in ["w1:t1", "w1:t2", "w2:t1"] {
        state.insert(
            SOCKET,
            tab_id,
            TabState::Pinned {
                label: Some("auth".to_owned()),
            },
        );
    }
    fixture.disk = Some(state);
    fixture.tab_label = "auth".to_owned();
    fixture.fail_rename = true;
    let result = fixture.run_event(
        r#"{"event":"pane.closed","data":{"type":"pane_closed","pane_id":"w1:p2","workspace_id":"w1"}}"#,
    );
    assert_eq!(result, Err(Failure::Other(String::new())));
    assert_eq!(
        fixture.command_log,
        "tab:get:w1:t1\ntab:rename:w1:t1\ntab:get:w1:t2\ntab:rename:w1:t2\n"
    );
    assert_eq!(fixture.deadlines, [true]);
}

#[test]
fn a_failed_opening_of_the_destination_does_not_keep_the_source_waiting() {
    let mut runtime = Runtime::new(SOCKET);
    let moved = event(
        r#"{"event":"pane.moved","data":{"type":"pane_moved","previous_tab_id":"w1:t2","pane":{"pane_id":"w1:p1","tab_id":"w1:t1"}}}"#,
    );
    assert_eq!(runtime.run_event(moved), Request::Open { renew_deadline: true });
    assert_eq!(
        runtime.opened(Loaded::Failed(Failure::Other("first".to_owned()))),
        Request::Open { renew_deadline: false }
    );
    assert_eq!(
        runtime.opened(Loaded::Failed(Failure::Other("second".to_owned()))),
        Request::Finish(Err(Failure::Other("first".to_owned())))
    );
}

#[test]
fn a_move_within_a_tab_updates_it_once() {
    let mut fixture = Fixture::new("1", "Fix OAuth callback", false);
    fixture
        .run_event(
            r#"{"event":"pane.moved","data":{"type":"pane_moved","previous_tab_id":"w1:t1","pane":{"pane_id":"w1:p1","tab_id":"w1:t1"}}}"#,
        )
        .unwrap();
    assert_eq!(fixture.deadlines, [true]);
    assert_eq!(fixture.renamed, "✓ Fix OAuth callback");
}

#[test]
fn every_tab_of_a_workspace_gets_its_turn() {
    let mut state = StoredState::new();
    for tab_id in ["w1:t1", "w1:t2", "w1:t3", "w1:t4"] {
        state.insert(SOCKET, tab_id, TabState::Pinned { label: None });
    }
    let asked = |tab_id: &str| Request::ReadTab {
        tab_id: tab_id.to_owned(),
    };
    let other = |words: &str| Failure::Other(words.to_owned());
    let tab = || Tab {
        label: "auth".to_owned(),
        pane_count: 1,
        agent_status: AgentStatus::Idle,
    };
    let mut runtime = Runtime::new(SOCKET);
    runtime.update_workspace_tabs("w1".to_owned());
    assert_eq!(runtime.opened(Loaded::Contents(state)), asked("w1:t1"));
    let missing = Failure::Command(HerdrCommandError {
        code: "tab_not_found".to_owned(),
        message: "gone".to_owned(),
    });
    assert_eq!(runtime.tab_read(Err(missing)), Request::Flush);
    assert_eq!(runtime.flushed(Ok(())), asked("w1:t2"));
    assert_eq!(runtime.tab_read(Err(other("no answer"))), asked("w1:t3"));
    assert_eq!(runtime.tab_read(Ok(tab())), Request::Flush);
    assert_eq!(runtime.flushed(Err(other("disk full"))), asked("w1:t4"));
    assert_eq!(runtime.tab_read(Ok(tab())), Request::Flush);
    assert_eq!(
        runtime.flushed(Ok(())),
        Request::Rename {
            tab_id: "w1:t4".to_owned(),
            to: "✓ auth".to_owned(),
        }
    );
    assert_eq!(
        runtime.renamed(Err(other("refused"))),
        Request::Finish(Err(other("no answer")))
    );
}

#[test]
fn startup_gives_each_tab_a_time_of_its_own() {
    let mut fixture = Fixture::new("auth", "Fix OAuth callback", false);
    let mut state = StoredState::new();
    for tab_id in ["w1:t2", "w1:t10", "w1:t1"] {
        state.insert(
            SOCKET,
            tab_id,
            TabState::Pinned {
                label: Some("auth".to_owned()),
            },
        );
    }
    state.insert("other.sock", "w9:t9", TabState::Pinned { label: None });
    fixture.disk = Some(state);
    fixture.fail_rename = true;
    assert!(fixture.reconcile_startup().is_err());
    assert_eq!(fixture.deadlines, [true, true, true, true]);
    assert_eq!(
        fixture.command_log,
        "tab:get:w1:t1\ntab:rename:w1:t1\ntab:get:w1:t10\ntab:rename:w1:t10\n\
         tab:get:w1:t2\ntab:rename:w1:t2\n"
    );
    assert!(fixture.state().contains("other.sock w9:t9 pinned None"));
}

#[test]
fn a_second_startup_changes_nothing() {
    for state in [
        TabState::Tracking {
            labels: ["1".to_owned(), "Fix it".to_owned()].into(),
        },
        TabState::Pinned { label: None },
        TabState::Pinned {
            label: Some("billing".to_owned()),
        },
    ] {
        let mut fixture = Fixture::new("Fix it", "", false);
        let mut stored = StoredState::new();
        stored.insert(SOCKET, "w1:t1", state);
        fixture.disk = Some(stored);
        fixture.reconcile_startup().unwrap();
        assert_eq!(fixture.renamed, "✓ Fix it");

        let kept = fixture.state();
        fixture.command_log.clear();
        fixture.deadlines.clear();
        fixture.fail_flush = true;
        fixture.fail_rename = true;
        fixture.reconcile_startup().unwrap();
        assert_eq!(fixture.command_log, "tab:get:w1:t1\n");
        assert_eq!(fixture.deadlines, [true, true]);
        assert_eq!(fixture.state(), kept);
        assert_eq!(fixture.tab_label, "✓ Fix it");
    }
}

#[test]
fn a_second_startup_asks_for_no_tab_that_the_first_found_missing() {
    let mut fixture = Fixture::new("auth", "", false);
    let mut stored = StoredState::new();
    stored.insert(SOCKET, "w1:t1", TabState::Pinned { label: None });
    fixture.disk = Some(stored);
    fixture.tab_exists = false;
    fixture.reconcile_startup().unwrap();
    fixture.command_log.clear();
    fixture.reconcile_startup().unwrap();
    assert_eq!(fixture.command_log, "");
    assert_eq!(fixture.state(), "");
}

#[test]
fn startup_without_states_asks_for_nothing() {
    let mut fixture = Fixture::new("1", "Fix OAuth callback", false);
    fixture.reconcile_startup().unwrap();
    assert_eq!(fixture.command_log, "");
}

#[test]
fn startup_reports_states_that_cannot_be_read() {
    let mut runtime = Runtime::new(SOCKET);
    assert_eq!(runtime.reconcile_startup(), Request::Open { renew_deadline: true });
    assert_eq!(
        runtime.opened(Loaded::Failed(Failure::Other("broken".to_owned()))),
        Request::Finish(Err(Failure::Other("broken".to_owned())))
    );
}

#[test]
fn unknown_tabs_are_not_asked_for() {
    let mut fixture = Fixture::new("1", "Fix OAuth callback", false);
    for json in [
        r#"{"event":"tab.focused","data":{"type":"tab_focused","tab_id":"w1:t1"}}"#,
        r#"{"event":"tab.renamed","data":{"type":"tab_renamed","tab_id":"w1:t1"}}"#,
        r#"{"event":"pane.closed","data":{"type":"pane_closed","workspace_id":"w1"}}"#,
        r#"{"event":"tab.closed","data":{"type":"tab_closed","tab_id":"w1:t1"}}"#,
        r#"{"event":"workspace.closed","data":{"type":"workspace_closed","workspace_id":"w1"}}"#,
        r#"{"event":"new","data":{"type":"something_new"}}"#,
        TAB_CREATED_EVENT,
    ] {
        fixture.run_event(json).unwrap();
    }
    assert_eq!(fixture.command_log, "");
    assert!(fixture.disk.is_none());
}

#[test]
fn a_missing_tab_is_a_failure_where_it_was_not_known() {
    let mut fixture = Fixture::new("1", "Fix OAuth callback", false);
    fixture.tab_exists = false;
    let result = fixture.run_event(STATUS_EVENT);
    assert_eq!(
        result,
        Err(Failure::Command(HerdrCommandError {
            code: "tab_not_found".to_owned(),
            message: "tab not found".to_owned(),
        }))
    );
}

#[test]
fn each_update_begins_by_opening_the_store() {
    let open = Request::Open { renew_deadline: true };
    let mut runtime = Runtime::new(SOCKET);
    assert_eq!(runtime.update_from_pane("w1:p1".to_owned()), open);
    assert_eq!(runtime.update_known_tab("w1:t1".to_owned()), open);
    assert_eq!(runtime.update_workspace_tabs("w1".to_owned()), open);
    let created = EventTab {
        tab_id: "w1:t1".to_owned(),
        label: "1".to_owned(),
    };
    assert_eq!(runtime.remove_created_tab(created), open);
    assert_eq!(runtime.run_event(EventData::Other), Request::Finish(Ok(())));
    assert!(runtime.store().is_none());
}

#[test]
fn requests_name_their_commands() {
    assert_eq!(
        Request::ReadPane { pane_id: "w1:p1".to_owned() }.arguments().unwrap(),
        ["pane", "get", "w1:p1"]
    );
    assert_eq!(
        Request::ReadTab { tab_id: "w1:t1".to_owned() }.arguments().unwrap(),
        ["tab", "get", "w1:t1"]
    );
    assert_eq!(
        Request::Rename { tab_id: "w1:t1".to_owned(), to: "✓ 1".to_owned() }
            .arguments()
            .unwrap(),
        ["tab", "rename", "w1:t1", "✓ 1"]
    );
    assert!(Request::Flush.arguments().is_none());
    assert!(Request::Finish(Ok(())).arguments().is_none());
    assert!(Request::Open { renew_deadline: true }.arguments().is_none());
}

#[test]
fn tab_ids_are_visited_once_each() {
    let mut seen = BTreeSet::new();
    let mut fixture = Fixture::new("1", "Fix OAuth callback", false);
    fixture.run_event(STATUS_EVENT).unwrap();
    fixture.command_log.clear();
    fixture.reconcile_startup().unwrap();
    for line in fixture.command_log.lines() {
        assert!(seen.insert(line.to_owned()));
    }
    assert_eq!(seen.len(), 1);
}

/// A Herdr with one tab, and a disk for the stored states.
struct Fixture {
    runtime: Runtime,
    tab_label: String,
    tab_status: String,
    tab_exists: bool,
    pane_count: u32,
    agent: String,
    title: String,
    fail_rename: bool,
    fail_flush: bool,
    stalls_for_millis: u64,
    event_timeout_millis: u64,
    renamed: String,
    command_log: String,
    deadlines: Vec<bool>,
    disk: Option<StoredState>,
}

fn copy_of(state: &StoredState) -> StoredState {
    StoredState::from_entries(state.to_entries())
}

fn text(value: &Value, name: &str) -> String {
    value[name].as_str().unwrap().to_owned()
}

fn event(json: &str) -> EventData {
    let envelope: Value = serde_json::from_str(json).unwrap();
    let data = &envelope["data"];
    match data["type"].as_str().unwrap() {
        "pane_agent_status_changed" => EventData::PaneAgentStatusChanged {
            pane_id: text(data, "pane_id"),
        },
        "tab_created" => EventData::TabCreated {
            tab: EventTab {
                tab_id: text(&data["tab"], "tab_id"),
                label: text(&data["tab"], "label"),
            },
        },
        "tab_focused" => EventData::TabFocused {
            tab_id: text(data, "tab_id"),
        },
        "tab_renamed" => EventData::TabRenamed {
            tab_id: text(data, "tab_id"),
        },
        "pane_moved" => EventData::PaneMoved {
            previous_tab_id: text(data, "previous_tab_id"),
            pane: EventPane {
                pane_id: text(&data["pane"], "pane_id"),
                tab_id: text(&data["pane"], "tab_id"),
            },
        },
        "pane_closed" => EventData::PaneClosed {
            workspace_id: text(data, "workspace_id"),
        },
        "tab_closed" => EventData::TabClosed {
            tab_id: text(data, "tab_id"),
        },
        "workspace_closed" => EventData::WorkspaceClosed {
            workspace_id: text(data, "workspace_id"),
        },
        _ => EventData::Other,
    }
}

impl Fixture {
    fn new(tab_label: &str, title: &str, fail_rename: bool) -> Self {
        Self::new_with_panes(tab_label, title, fail_rename, 1)
    }

    fn new_with_panes(tab_label: &str, title: &str, fail_rename: bool, pane_count: u32) -> Self {
        Self {
            runtime: Runtime::new(SOCKET),
            tab_label: tab_label.to_owned(),
            tab_status: "idle".to_owned(),
            tab_exists: true,
            pane_count,
            agent: "opencode".to_owned(),
            title: title.to_owned(),
            fail_rename,
            fail_flush: false,
            stalls_for_millis: 0,
            event_timeout_millis: 2000,
            renamed: String::new(),
            command_log: String::new(),
            deadlines: Vec::new(),
            disk: None,
        }
    }

    fn load(&self) -> Loaded {
        match &self.disk {
            Some(state) => Loaded::Contents(copy_of(state)),
            None => Loaded::Missing,
        }
    }

    fn run_event(&mut self, json: &str) -> Result<(), Failure> {
        let request = self.runtime.run_event(event(json));
        self.serve(request)
    }

    fn reconcile_startup(&mut self) -> Result<(), Failure> {
        let request = self.runtime.reconcile_startup();
        self.serve(request)
    }

    fn serve(&mut self, first: Request) -> Result<(), Failure> {
        let mut request = first;
        loop {
            let arguments = request.arguments();
            request = match request {
                Request::Open { renew_deadline } => {
                    self.deadlines.push(renew_deadline);
                    let loaded = self.load();
                    self.runtime.opened(loaded)
                }
                Request::ReadPane { .. } => {
                    let result = self.herdr(arguments.unwrap()).map(|stdout| {
                        let response: Value = serde_json::from_slice(&stdout).unwrap();
                        let pane = &response["result"]["pane"];
                        Pane {
                            agent: pane["agent"].as_str().map(str::to_owned),
                            tab_id: text(pane, "tab_id"),
                            terminal_title_stripped: pane["terminal_title_stripped"]
                                .as_str()
                                .map(str::to_owned),
                        }
                    });
                    self.runtime.pane_read(result)
                }
                Request::ReadTab { .. } => {
                    let result = self.herdr(arguments.unwrap()).map(|stdout| {
                        let response: Value = serde_json::from_slice(&stdout).unwrap();
                        let tab = &response["result"]["tab"];
                        Tab {
                            label: text(tab, "label"),
                            pane_count: tab["pane_count"].as_u64().unwrap() as u32,
                            agent_status: AgentStatus::from_name(&text(tab, "agent_status")),
                        }
                    });
                    self.runtime.tab_read(result)
                }
                Request::Flush => {
                    let result = if self.fail_flush {
                        Err(Failure::Other("disk full".to_owned()))
                    } else {
                        self.disk = Some(copy_of(self.runtime.store().unwrap().contents()));
                        Ok(())
                    };
                    self.runtime.flushed(result)
                }
                Request::Rename { .. } => {
                    let result = self.herdr(arguments.unwrap()).map(|_| ());
                    self.runtime.renamed(result)
                }
                Request::Finish(result) => return result,
            };
        }
    }

    fn herdr(&mut self, arguments: Vec<String>) -> Result<Vec<u8>, Failure> {
        let mut event = CommandEvent::Spawned {
            remaining: self.event_timeout_millis * 1_000_000,
        };
        loop {
            event = match command_step(event) {
                CommandAction::Wait { nanos } => CommandEvent::Waited {
                    exited: self.stalls_for_millis * 1_000_000 < nanos,
                },
                CommandAction::Kill => CommandEvent::Killed,
                CommandAction::Collect => CommandEvent::Collected(self.answer(&arguments)),
                CommandAction::Finish(result) => return result,
            };
        }
    }

    fn answer(&mut self, arguments: &[String]) -> CommandOutput {
        self.command_log
            .push_str(&format!("{}:{}:{}\n", arguments[0], arguments[1], arguments[2]));
        let (success, stdout, stderr) = match (arguments[0].as_str(), arguments[1].as_str()) {
            ("pane", "get") => (
                true,
                format!(
                    r#"{{"result":{{"pane":{{"agent":"{}","tab_id":"w1:t1","terminal_title_stripped":"{}"}}}}}}"#,
                    self.agent, self.title
                ),
                String::new(),
            ),
            ("tab", "get") if !self.tab_exists => (
                false,
                String::new(),
                r#"{"id":"test","error":{"code":"tab_not_found","message":"tab not found"}}"#
                    .to_owned(),
            ),
            ("tab", "get") => (
                true,
                format!(
                    r#"{{"result":{{"tab":{{"label":"{}","pane_count":{},"agent_status":"{}"}}}}}}"#,
                    self.tab_label, self.pane_count, self.tab_status
                ),
                String::new(),
            ),
            ("tab", "rename") if self.fail_rename => (false, String::new(), String::new()),
            ("tab", "rename") => {
                self.renamed = arguments[3].clone();
                self.tab_label = arguments[3].clone();
                (true, String::new(), String::new())
            }
            _ => panic!("unexpected command"),
        };
        let reported = serde_json::from_str::<Value>(&stderr)
            .ok()
            .map(|response| HerdrCommandError {
                code: text(&response["error"], "code"),
                message: text(&response["error"], "message"),
            });
        CommandOutput {
            success,
            stdout: stdout.into_bytes(),
            stderr: stderr.into_bytes(),
            reported,
        }
    }

    fn state(&self) -> String {
        let mut lines = String::new();
        let state = self.disk.as_ref().unwrap();
        for session in state.session_names() {
            for tab_id in state.tab_ids(&session) {
                let tab = match state.get(&session, &tab_id).unwrap() {
                    TabState::Tracking { labels } => format!("tracking {labels:?}"),
                    TabState::Pinned { label } => format!("pinned {label:?}"),
                };
                lines.push_str(&format!("{session} {tab_id} {tab}\n"));
            }
        }
        lines
    }

    fn set_status(&mut self, status: &str) {
        self.tab_status = status.to_owned();
    }
}
