use herdr_auto_title::command::{
    command_step, failure_of, interpret_output, CommandAction, CommandEvent, CommandOutput,
};
use herdr_auto_title::failure::{is_tab_not_found, Failure, HerdrCommandError};
use herdr_auto_title::launch::{run_from_env, Environment, Errand, Launch, EVENT_TIMEOUT_MILLIS};

fn reported(code: &str) -> HerdrCommandError {
    HerdrCommandError {
        code: code.to_owned(),
        message: "tab not found".to_owned(),
    }
}

#[test]
fn a_command_is_waited_for_and_collected() {
    assert!(matches!(
        command_step(CommandEvent::Spawned { remaining: 7 }),
        CommandAction::Wait { nanos: 7 }
    ));
    assert!(matches!(
        command_step(CommandEvent::Waited { exited: true }),
        CommandAction::Collect
    ));
    let output = CommandOutput {
        success: true,
        stdout: b"out".to_vec(),
        stderr: b"err".to_vec(),
        reported: None,
    };
    match command_step(CommandEvent::Collected(output)) {
        CommandAction::Finish(result) => assert_eq!(result, Ok(b"out".to_vec())),
        _ => panic!("expected the end"),
    }
}

#[test]
fn a_command_that_takes_too_long_is_stopped() {
    assert!(matches!(
        command_step(CommandEvent::Spawned { remaining: 0 }),
        CommandAction::Kill
    ));
    assert!(matches!(
        command_step(CommandEvent::Waited { exited: false }),
        CommandAction::Kill
    ));
    match command_step(CommandEvent::Killed) {
        CommandAction::Finish(result) => assert_eq!(
            result,
            Err(Failure::TimedOut("Herdr command timed out".to_owned()))
        ),
        _ => panic!("expected the end"),
    }
    match command_step(CommandEvent::Failed(Failure::Other("no".to_owned()))) {
        CommandAction::Finish(result) => {
            assert_eq!(result, Err(Failure::Other("no".to_owned())))
        }
        _ => panic!("expected the end"),
    }
}

#[test]
fn a_failed_command_says_why() {
    let output = CommandOutput {
        success: false,
        stdout: b"out".to_vec(),
        stderr: b" \n br\xffken \n".to_vec(),
        reported: None,
    };
    assert_eq!(
        interpret_output(output),
        Err(Failure::Other("br\u{fffd}ken".to_owned()))
    );
    let output = CommandOutput {
        success: false,
        stdout: Vec::new(),
        stderr: "é kaputt".as_bytes().to_vec(),
        reported: None,
    };
    assert_eq!(
        interpret_output(output),
        Err(Failure::Other("é kaputt".to_owned()))
    );
    let output = CommandOutput {
        success: false,
        stdout: Vec::new(),
        stderr: b"{}".to_vec(),
        reported: Some(reported("tab_not_found")),
    };
    assert_eq!(
        interpret_output(output),
        Err(Failure::Command(reported("tab_not_found")))
    );
    assert_eq!(
        failure_of(None, "\tno such file\n"),
        Failure::Other("no such file".to_owned())
    );
    assert_eq!(
        failure_of(Some(reported("busy")), "ignored"),
        Failure::Command(reported("busy"))
    );
}

#[test]
fn only_a_missing_tab_is_a_missing_tab() {
    assert!(is_tab_not_found(&Failure::Command(reported("tab_not_found"))));
    assert!(!is_tab_not_found(&Failure::Command(reported("pane_not_found"))));
    assert!(!is_tab_not_found(&Failure::Other("tab_not_found".to_owned())));
    assert!(!is_tab_not_found(&Failure::TimedOut("tab_not_found".to_owned())));
}

#[test]
fn failures_are_described() {
    assert_eq!(reported("busy").describe(), "busy: tab not found");
    assert_eq!(Failure::Command(reported("busy")).describe(), "busy: tab not found");
    assert_eq!(Failure::Other("no".to_owned()).describe(), "no");
    assert_eq!(Failure::TimedOut("late".to_owned()).describe(), "late");
}

fn environment() -> Environment {
    Environment {
        herdr_bin: Some("/bin/herdr".to_owned()),
        state_dir: Some("/state".to_owned()),
        socket_path: Some("a.sock".to_owned()),
        event: None,
        event_json: Some("{}".to_owned()),
    }
}

#[test]
fn the_environment_says_what_to_do() {
    let launch = |errand: Errand| Launch {
        herdr_bin: "/bin/herdr".to_owned(),
        state_dir: "/state".to_owned(),
        socket_path: "a.sock".to_owned(),
        errand,
    };
    assert_eq!(
        run_from_env(environment()),
        Ok(launch(Errand::Event("{}".to_owned())))
    );
    let mut startup = environment();
    startup.event = Some("startup".to_owned());
    startup.event_json = None;
    assert_eq!(run_from_env(startup), Ok(launch(Errand::Startup)));
    let mut other = environment();
    other.event = Some("tab.focused".to_owned());
    assert_eq!(
        run_from_env(other),
        Ok(launch(Errand::Event("{}".to_owned())))
    );
    assert_eq!(EVENT_TIMEOUT_MILLIS, 2000);
}

#[test]
fn missing_variables_are_named() {
    let required = |name: &str| Err(Failure::Other(format!("{name} is required")));
    let mut all = environment();
    all.event_json = None;
    assert_eq!(run_from_env(all), required("HERDR_PLUGIN_EVENT_JSON"));
    let mut all = environment();
    all.socket_path = None;
    all.event_json = None;
    assert_eq!(run_from_env(all), required("HERDR_SOCKET_PATH"));
    let mut all = environment();
    all.state_dir = None;
    all.socket_path = None;
    assert_eq!(run_from_env(all), required("HERDR_PLUGIN_STATE_DIR"));
    let mut all = environment();
    all.herdr_bin = None;
    all.state_dir = None;
    assert_eq!(run_from_env(all), required("HERDR_BIN_PATH"));
}
