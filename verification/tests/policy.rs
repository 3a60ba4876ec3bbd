use std::collections::VecDeque;

use herdr_auto_title::policy::{
    decide, finish, is_default_label, is_owned_label, remember, same_state, strip_status,
    tracked_base, Action, AgentStatus, TabState, MAX_TRACKED_LABELS,
};

#[test]
fn generated_title_replaces_default_labels() {
    for label in ["1", "opencode", "OpenCode"] {
        assert_eq!(
            decide(
                None,
                label,
                Some("Fix OAuth callback"),
                AgentStatus::Working,
            ),
            rename(&[label, "Fix OAuth callback"], "⣿ Fix OAuth callback")
        );
    }
}

#[test]
fn every_status_has_a_stable_icon() {
    let state = tracking(&["1", "Fix OAuth callback"]);
    for (status, icon) in [
        (AgentStatus::Working, "⣿"),
        (AgentStatus::Blocked, "◉"),
        (AgentStatus::Done, "●"),
        (AgentStatus::Idle, "✓"),
        (AgentStatus::Unknown, "○"),
    ] {
        assert_eq!(
            decide(Some(&state), "Fix OAuth callback", None, status),
            rename(
                &["1", "Fix OAuth callback"],
                &format!("{icon} Fix OAuth callback")
            )
        );
    }
}

#[test]
fn custom_initial_label_is_pinned_but_decorated() {
    assert_eq!(
        decide(
            None,
            "auth",
            Some("Fix OAuth callback"),
            AgentStatus::Blocked,
        ),
        Action::Rename {
            to: "◉ auth".to_owned(),
            state: pinned("auth"),
        }
    );
}

#[test]
fn tracked_title_advances() {
    let state = tracking(&["1", "Fix OAuth callback"]);
    assert_eq!(
        decide(
            Some(&state),
            "✓ Fix OAuth callback",
            Some("Add regression test"),
            AgentStatus::Working,
        ),
        rename(
            &["1", "Fix OAuth callback", "Add regression test"],
            "⣿ Add regression test"
        )
    );
}

#[test]
fn status_changes_do_not_change_retained_titles() {
    let state = tracking(&["1", "Fix OAuth callback"]);
    assert_eq!(
        decide(
            Some(&state),
            "⣿ Fix OAuth callback",
            None,
            AgentStatus::Idle,
        ),
        rename(&["1", "Fix OAuth callback"], "✓ Fix OAuth callback")
    );
}

#[test]
fn every_retained_label_survives_decorated_restore() {
    let state = tracking(&["1", "First title", "Second title"]);
    for current in ["1", "First title", "Second title"] {
        assert!(matches!(
            decide(
                Some(&state),
                &format!("● {current}"),
                Some("Latest title"),
                AgentStatus::Working,
            ),
            Action::Rename { .. }
        ));
    }
}

#[test]
fn tracked_history_is_bounded() {
    let mut state = tracking(&["1"]);
    let mut current = "✓ 1".to_owned();
    for index in 0..=MAX_TRACKED_LABELS {
        let title = format!("Title {index}");
        let Action::Rename { to, state: next } =
            decide(Some(&state), &current, Some(&title), AgentStatus::Working)
        else {
            panic!("expected rename");
        };
        state = next;
        current = to;
    }

    let TabState::Tracking { labels } = state else {
        panic!("expected tracking state");
    };
    assert_eq!(labels.len(), MAX_TRACKED_LABELS);
    assert_eq!(labels.back().map(String::as_str), Some("Title 16"));
}

#[test]
fn retention_keeps_the_observed_and_generated_labels() {
    let labels = (0..MAX_TRACKED_LABELS)
        .map(|index| format!("Title {index}"))
        .collect();
    let state = TabState::Tracking { labels };
    let Action::Rename { state, .. } = decide(
        Some(&state),
        "✓ Title 0",
        Some("Latest"),
        AgentStatus::Working,
    ) else {
        panic!("expected rename");
    };
    let TabState::Tracking { labels } = state else {
        panic!("expected tracking state");
    };

    assert_eq!(labels.len(), MAX_TRACKED_LABELS);
    assert!(labels.iter().any(|label| label == "Title 0"));
    assert_eq!(labels.back().map(String::as_str), Some("Latest"));
}

#[test]
fn oversized_state_is_normalized() {
    let labels = (0..20).map(|index| format!("Title {index}")).collect();
    let state = TabState::Tracking { labels };
    let Action::Save(TabState::Tracking { labels }) = decide(
        Some(&state),
        "✓ Title 19",
        Some("Title 19"),
        AgentStatus::Idle,
    ) else {
        panic!("expected normalized state");
    };

    assert_eq!(labels.len(), MAX_TRACKED_LABELS);
    assert_eq!(labels.back().map(String::as_str), Some("Title 19"));
}

#[test]
fn unknown_label_pins_a_tracked_tab() {
    let state = tracking(&["1", "Fix OAuth callback"]);
    assert_eq!(
        decide(
            Some(&state),
            "auth",
            Some("Add regression test"),
            AgentStatus::Idle,
        ),
        Action::Rename {
            to: "✓ auth".to_owned(),
            state: pinned("auth"),
        }
    );
}

#[test]
fn pinned_label_keeps_status_updates_and_manual_renames() {
    let state = pinned("auth");
    assert_eq!(
        decide(Some(&state), "◉ auth", None, AgentStatus::Idle),
        Action::Rename {
            to: "✓ auth".to_owned(),
            state: state.clone(),
        }
    );
    assert_eq!(
        decide(Some(&state), "billing", None, AgentStatus::Done),
        Action::Rename {
            to: "● billing".to_owned(),
            state: pinned("billing"),
        }
    );
}

#[test]
fn title_beginning_with_an_icon_is_preserved() {
    let state = tracking(&["1", "● incident"]);
    assert_eq!(
        decide(Some(&state), "✓ ● incident", None, AgentStatus::Working,),
        rename(&["1", "● incident"], "⣿ ● incident")
    );
}

#[test]
fn empty_title_still_updates_status() {
    let state = tracking(&["1"]);
    assert_eq!(
        decide(Some(&state), "✓ 1", Some("  "), AgentStatus::Blocked),
        rename(&["1"], "◉ 1")
    );
}

#[test]
fn old_pinned_state_is_migrated_from_the_observed_label() {
    let stored: serde_json::Value = serde_json::from_str(r#"{"mode":"pinned"}"#).unwrap();
    assert_eq!(stored["mode"].as_str(), Some("pinned"));
    let state = TabState::Pinned {
        label: stored["label"].as_str().map(str::to_owned),
    };
    assert_eq!(
        decide(Some(&state), "auth", None, AgentStatus::Unknown),
        Action::Rename {
            to: "○ auth".to_owned(),
            state: pinned("auth"),
        }
    );
}

#[test]
fn pinned_state_resets_when_a_new_tab_reuses_a_default_label() {
    let state = pinned("auth");
    assert_eq!(
        decide(
            Some(&state),
            "1",
            Some("Fix OAuth callback"),
            AgentStatus::Working,
        ),
        rename(&["1", "Fix OAuth callback"], "⣿ Fix OAuth callback")
    );
}

#[test]
fn stale_tracking_state_resets_when_a_new_tab_reuses_a_default_label() {
    let state = tracking(&["Old title"]);
    assert_eq!(
        decide(
            Some(&state),
            "1",
            Some("Fix OAuth callback"),
            AgentStatus::Working,
        ),
        rename(&["1", "Fix OAuth callback"], "⣿ Fix OAuth callback")
    );
}

#[test]
fn future_status_values_fall_back_to_unknown() {
    assert_eq!(
        AgentStatus::from_name(&serde_json::from_str::<String>(r#""paused""#).unwrap()),
        AgentStatus::Unknown
    );
}

#[test]
fn matching_decorated_label_is_unchanged() {
    let state = tracking(&["OpenCode"]);
    assert_eq!(
        decide(Some(&state), "✓ OpenCode", None, AgentStatus::Idle),
        Action::Nothing
    );
}

fn tracking(labels: &[&str]) -> TabState {
    TabState::Tracking {
        labels: labels.iter().map(|label| (*label).to_owned()).collect(),
    }
}

fn pinned(label: &str) -> TabState {
    TabState::Pinned {
        label: Some(label.to_owned()),
    }
}

fn rename(labels: &[&str], to: &str) -> Action {
    Action::Rename {
        to: to.to_owned(),
        state: tracking(labels),
    }
}

#[test]
fn known_status_names_are_read() {
    for (name, status) in [
        ("working", AgentStatus::Working),
        ("blocked", AgentStatus::Blocked),
        ("done", AgentStatus::Done),
        ("idle", AgentStatus::Idle),
        ("unknown", AgentStatus::Unknown),
        ("Working", AgentStatus::Unknown),
        ("", AgentStatus::Unknown),
    ] {
        assert_eq!(AgentStatus::from_name(name), status);
    }
}

#[test]
fn icons_are_stripped_and_nothing_else() {
    for status in [
        AgentStatus::Working,
        AgentStatus::Blocked,
        AgentStatus::Done,
        AgentStatus::Idle,
        AgentStatus::Unknown,
    ] {
        assert_eq!(status.icon().chars().count(), 1);
        let label = format!("{} auth", status.icon());
        assert_eq!(strip_status(&label), Some("auth"));
        assert_eq!(strip_status(&format!("{} ", status.icon())), Some(""));
        assert_eq!(strip_status(&format!("{}auth", status.icon())), None);
        assert_eq!(strip_status(status.icon()), None);
    }
    assert_eq!(strip_status("✓ ● incident"), Some("● incident"));
    assert_eq!(strip_status("x auth"), None);
    assert_eq!(strip_status(" ✓ auth"), None);
    assert_eq!(strip_status(""), None);
}

#[test]
fn default_labels_are_numbers_and_the_agent() {
    for label in [
        "0", "1", "42", "007", "+3", "18446744073709551615", "opencode", "OPENCODE", "OpenCode",
    ] {
        assert!(is_default_label(label), "{label}");
    }
    for label in [
        "", "+", "-1", "++1", "1 ", " 1", "1.5", "0x1", "1_000", "18446744073709551616", "auth",
        "open code", "opencode2", "ópencode", "٣",
    ] {
        assert!(!is_default_label(label), "{label}");
    }
}

#[test]
fn owned_labels_are_bare_or_decorated() {
    assert!(is_owned_label("auth", "auth"));
    assert!(is_owned_label("● auth", "auth"));
    assert!(is_owned_label("● auth", "● auth"));
    assert!(!is_owned_label("● ● auth", "auth"));
    assert!(!is_owned_label("auth2", "auth"));
    assert!(!is_owned_label("", "auth"));
}

#[test]
fn tracked_labels_are_found_bare_before_decorated() {
    let labels: VecDeque<String> = ["1", "✓ incident", "incident"]
        .into_iter()
        .map(str::to_owned)
        .collect();
    assert_eq!(tracked_base("✓ incident", &labels).as_deref(), Some("✓ incident"));
    assert_eq!(tracked_base("● incident", &labels).as_deref(), Some("incident"));
    assert_eq!(tracked_base("● ✓ incident", &labels).as_deref(), Some("✓ incident"));
    assert_eq!(tracked_base("other", &labels), None);
    assert_eq!(tracked_base("✓ other", &labels), None);
}

#[test]
fn remembering_moves_a_label_to_the_end() {
    let mut labels: VecDeque<String> = ["a", "b", "a", "c"].into_iter().map(str::to_owned).collect();
    remember(&mut labels, "a");
    assert_eq!(labels, ["b", "c", "a"]);
    remember(&mut labels, "d");
    assert_eq!(labels, ["b", "c", "a", "d"]);
    let mut empty = VecDeque::new();
    remember(&mut empty, "x");
    assert_eq!(empty, ["x"]);
}

#[test]
fn finishing_renames_saves_or_does_nothing() {
    let state = pinned("auth");
    assert_eq!(
        finish(None, "✓ auth", "auth".to_owned(), pinned("auth"), AgentStatus::Idle),
        Action::Save(pinned("auth"))
    );
    assert_eq!(
        finish(Some(&state), "✓ auth", "auth".to_owned(), pinned("auth"), AgentStatus::Idle),
        Action::Nothing
    );
    assert_eq!(
        finish(Some(&state), "auth", "auth".to_owned(), pinned("auth"), AgentStatus::Done),
        Action::Rename {
            to: "● auth".to_owned(),
            state: pinned("auth"),
        }
    );
}

#[test]
fn states_are_compared_by_their_labels() {
    assert!(same_state(&tracking(&["1", "a"]), &tracking(&["1", "a"])));
    assert!(!same_state(&tracking(&["1", "a"]), &tracking(&["a", "1"])));
    assert!(!same_state(&tracking(&["1"]), &tracking(&["1", "a"])));
    assert!(same_state(&pinned("a"), &pinned("a")));
    assert!(!same_state(&pinned("a"), &pinned("b")));
    assert!(!same_state(&pinned("a"), &tracking(&["a"])));
    assert!(!same_state(&pinned("a"), &TabState::Pinned { label: None }));
    assert!(same_state(
        &TabState::Pinned { label: None },
        &TabState::Pinned { label: None }
    ));
}

#[test]
fn titles_are_trimmed() {
    let state = tracking(&["1"]);
    assert_eq!(
        decide(Some(&state), "✓ 1", Some("\t\u{3000} Fix it \u{a0}\n"), AgentStatus::Done),
        rename(&["1", "Fix it"], "● Fix it")
    );
}

#[test]
fn decisions_are_settled_once_they_are_carried_out() {
    for (state, current, title) in [
        (None, "1", Some("Fix it")),
        (None, "auth", Some("Fix it")),
        (None, "7", None),
        (Some(tracking(&["1", "Fix it"])), "✓ Fix it", Some("Next")),
        (Some(pinned("auth")), "billing", None),
    ] {
        let Action::Rename { to, state: next } =
            decide(state.as_ref(), current, title, AgentStatus::Working)
        else {
            panic!("expected rename");
        };
        assert_eq!(
            decide(Some(&next), &to, None, AgentStatus::Working),
            Action::Nothing
        );
        assert_eq!(
            decide(Some(&next), &to, title, AgentStatus::Working),
            Action::Nothing
        );
        let Action::Rename { to: later, state: kept } =
            decide(Some(&next), &to, None, AgentStatus::Blocked)
        else {
            panic!("expected rename");
        };
        assert_eq!(strip_status(&later), strip_status(&to));
        assert_eq!(kept, next);
    }
}

#[test]
fn a_label_like_the_decorated_one_is_taken_for_the_base() {
    let state = tracking(&["✓ foo", "foo"]);
    assert_eq!(
        decide(Some(&state), "✓ foo", None, AgentStatus::Idle),
        rename(&["foo", "✓ foo"], "✓ ✓ foo")
    );
    assert_eq!(
        decide(Some(&state), "✓ foo", Some("foo"), AgentStatus::Idle),
        Action::Nothing
    );
    assert_eq!(
        decide(
            Some(&tracking(&["✓ foo", "1", "foo"])),
            "✓ foo",
            Some("foo"),
            AgentStatus::Idle,
        ),
        Action::Save(tracking(&["1", "✓ foo", "foo"]))
    );
}

#[test]
fn a_pinned_label_stays_through_a_series_of_titles_and_statuses() {
    let state = pinned("auth");
    let mut label = "auth".to_owned();
    for (title, status, shown) in [
        (Some("Fix it"), AgentStatus::Working, "⣿ auth"),
        (None, AgentStatus::Blocked, "◉ auth"),
        (Some("opencode"), AgentStatus::Idle, "✓ auth"),
        (Some("1"), AgentStatus::Unknown, "○ auth"),
    ] {
        let Action::Rename { to, state: next } = decide(Some(&state), &label, title, status)
        else {
            panic!("expected rename");
        };
        assert_eq!(to, shown);
        assert_eq!(next, state);
        assert_eq!(decide(Some(&state), &to, title, status), Action::Nothing);
        label = to;
    }
}

#[test]
fn a_failed_rename_is_recovered_from() {
    let Action::Rename { state, .. } = decide(None, "1", Some("Fix it"), AgentStatus::Working)
    else {
        panic!("expected rename");
    };
    assert_eq!(
        decide(Some(&state), "1", None, AgentStatus::Working),
        rename(&["Fix it", "1"], "⣿ 1")
    );
    assert_eq!(
        decide(Some(&state), "1", Some("Fix it"), AgentStatus::Working),
        rename(&["1", "Fix it"], "⣿ Fix it")
    );
}

#[test]
fn a_clone_is_the_same_state() {
    let state = tracking(&["1", "a"]);
    assert!(same_state(&state, &state.clone()));
    assert_eq!(pinned("a").clone(), pinned("a"));
}
