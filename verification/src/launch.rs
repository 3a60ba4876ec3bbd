//! What the environment asks for.

use vstd::prelude::*;
use vstd::string::*;

use crate::failure::{Failure, FailureView};
use crate::text;
use crate::text::same_text;

verus! {

/// For how many milliseconds an event may be worked on.
pub const EVENT_TIMEOUT_MILLIS: u64 = 2000;

/// The variables of the environment that matter, as far as they are set.
pub struct Environment {
    /// `HERDR_BIN_PATH`
    pub herdr_bin: Option<String>,
    /// `HERDR_PLUGIN_STATE_DIR`
    pub state_dir: Option<String>,
    /// `HERDR_SOCKET_PATH`
    pub socket_path: Option<String>,
    /// `HERDR_PLUGIN_EVENT`
    pub event: Option<String>,
    /// `HERDR_PLUGIN_EVENT_JSON`
    pub event_json: Option<String>,
}

/// What there is to do.
#[derive(Debug, PartialEq, Eq)]
pub enum Errand {
    /// Herdr has started.
    Startup,
    /// The event that a text describes has taken place.
    Event(String),
}

/// What there is to do, and where.
#[derive(Debug, PartialEq, Eq)]
pub struct Launch {
    pub herdr_bin: String,
    pub state_dir: String,
    pub socket_path: String,
    pub errand: Errand,
}

/// The failure of a variable that is not set.
pub open spec fn missing(name: Seq<char>) -> FailureView {
    FailureView::Other(name + " is required"@)
}

/// The value of a variable that has to be set.
pub fn required_env(name: &str, value: Option<String>) -> (result: Result<String, Failure>)
    ensures
        match value {
            Some(text) => result == Ok::<String, Failure>(text),
            None => result matches Err(failure) && failure@ == missing(name@),
        },
{
    match value {
        Some(text) => Ok(text),
        None => {
            let mut words = name.to_owned();
            words.append(" is required");
            Err(Failure::Other(words))
        },
    }
}

/// Whether the environment speaks of a start.
pub open spec fn is_startup(environment: Environment) -> bool {
    text::optional_text(environment.event) == Some("startup"@)
}

/// The first variable that has to be set and is not.
pub open spec fn first_missing(environment: Environment) -> Option<Seq<char>> {
    if environment.herdr_bin is None {
        Some("HERDR_BIN_PATH"@)
    } else if environment.state_dir is None {
        Some("HERDR_PLUGIN_STATE_DIR"@)
    } else if environment.socket_path is None {
        Some("HERDR_SOCKET_PATH"@)
    } else if !is_startup(environment) && environment.event_json is None {
        Some("HERDR_PLUGIN_EVENT_JSON"@)
    } else {
        None
    }
}

/// What the environment asks for. At a start no event has to be described.
pub fn run_from_env(environment: Environment) -> (result: Result<Launch, Failure>)
    ensures
        match first_missing(environment) {
            Some(name) => result matches Err(failure) && failure@ == missing(name),
            None => result == Ok::<Launch, Failure>(
                Launch {
                    herdr_bin: environment.herdr_bin->0,
                    state_dir: environment.state_dir->0,
                    socket_path: environment.socket_path->0,
                    errand: if is_startup(environment) {
                        Errand::Startup
                    } else {
                        Errand::Event(environment.event_json->0)
                    },
                },
            ),
        },
{
    let herdr_bin = match required_env("HERDR_BIN_PATH", environment.herdr_bin) {
        Ok(value) => value,
        Err(failure) => {
            return Err(failure);
        },
    };
    let state_dir = match required_env("HERDR_PLUGIN_STATE_DIR", environment.state_dir) {
        Ok(value) => value,
        Err(failure) => {
            return Err(failure);
        },
    };
    let socket_path = match required_env("HERDR_SOCKET_PATH", environment.socket_path) {
        Ok(value) => value,
        Err(failure) => {
            return Err(failure);
        },
    };
    let startup = match &environment.event {
        Some(event) => same_text(event.as_str(), "startup"),
        None => false,
    };
    let errand = if startup {
        Errand::Startup
    } else {
        match required_env("HERDR_PLUGIN_EVENT_JSON", environment.event_json) {
            Ok(json) => Errand::Event(json),
            Err(failure) => {
                return Err(failure);
            },
        }
    };
    Ok(Launch { herdr_bin, state_dir, socket_path, errand })
}

/// The environment speaks of a start just where the event is set to that word.
pub proof fn law_start_goes_by_its_word(environment: Environment)
    ensures
        is_startup(environment) <==> environment.event is Some && environment.event->0@ == seq![
            's', 't', 'a', 'r', 't', 'u', 'p',
        ],
{
    reveal_strlit("startup");
    assert("startup"@ =~= seq!['s', 't', 'a', 'r', 't', 'u', 'p']);
}

/// Nothing is missing just where the path of Herdr, the directory of the states and the
/// socket are set, and, except at a start, the description of the event; what is missing is
/// named by its variable, the first one first.
pub proof fn law_what_has_to_be_set(environment: Environment, name: Seq<char>)
    ensures
        first_missing(environment) is None <==> {
            &&& environment.herdr_bin is Some
            &&& environment.state_dir is Some
            &&& environment.socket_path is Some
            &&& is_startup(environment) || environment.event_json is Some
        },
        environment.herdr_bin is None ==> first_missing(environment) == Some("HERDR_BIN_PATH"@),
        environment.herdr_bin is Some && environment.state_dir is None ==> first_missing(
            environment,
        ) == Some("HERDR_PLUGIN_STATE_DIR"@),
        environment.herdr_bin is Some && environment.state_dir is Some
            && environment.socket_path is None ==> first_missing(environment) == Some(
            "HERDR_SOCKET_PATH"@,
        ),
        environment.herdr_bin is Some && environment.state_dir is Some
            && environment.socket_path is Some && !is_startup(environment)
            && environment.event_json is None ==> first_missing(environment) == Some(
            "HERDR_PLUGIN_EVENT_JSON"@,
        ),
        missing(name) == FailureView::Other(name + " is required"@),
{
}

/// An event may be worked on for two seconds.
pub proof fn law_event_has_two_seconds()
    ensures
        EVENT_TIMEOUT_MILLIS == 2 * 1000,
{
}

} // verus!
