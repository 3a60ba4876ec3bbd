//! Running a Herdr command: how long to wait for it, and what its output means.

use vstd::prelude::*;

use crate::failure::{Failure, FailureView, HerdrCommandError};
use crate::text;
use crate::text::trim;

verus! {

/// What a command that has come to its end left behind.
pub struct CommandOutput {
    /// Whether it ended well.
    pub success: bool,
    pub stdout: Vec<u8>,
    pub stderr: Vec<u8>,
    /// The error that `stderr` reports, where it is an error response and the command failed.
    pub reported: Option<HerdrCommandError>,
}

/// What has happened to a command.
pub enum CommandEvent {
    /// It was started, with so many nanoseconds left for it.
    Spawned { remaining: u64 },
    /// It was waited for, and has exited or not.
    Waited { exited: bool },
    /// It was stopped.
    Killed,
    /// Its output was collected.
    Collected(CommandOutput),
    /// One of these could not be done.
    Failed(Failure),
}

/// What to do about a command next.
pub enum CommandAction {
    /// Wait for it to exit, but not longer than so many nanoseconds.
    Wait { nanos: u64 },
    /// Stop it.
    Kill,
    /// Collect its output.
    Collect,
    /// Nothing: this is what it came to.
    Finish(Result<Vec<u8>, Failure>),
}

/// A [`CommandAction`] as mathematical values.
pub enum CommandActionView {
    Wait { nanos: u64 },
    Kill,
    Collect,
    Finish(Result<Seq<u8>, FailureView>),
}

/// The bytes of a result, or its failure.
pub open spec fn result_view(result: Result<Vec<u8>, Failure>) -> Result<Seq<u8>, FailureView> {
    match result {
        Ok(bytes) => Ok(bytes@),
        Err(failure) => Err(failure@),
    }
}

impl View for CommandAction {
    type V = CommandActionView;

    open spec fn view(&self) -> CommandActionView {
        match self {
            CommandAction::Wait { nanos } => CommandActionView::Wait { nanos: *nanos },
            CommandAction::Kill => CommandActionView::Kill,
            CommandAction::Collect => CommandActionView::Collect,
            CommandAction::Finish(result) => CommandActionView::Finish(result_view(*result)),
        }
    }
}

/// The text that bytes stand for in UTF-8, with a replacement character for each part that
/// stands for none.
pub uninterp spec fn utf8_lossy(bytes: Seq<u8>) -> Seq<char>;

/// Calls [`String::from_utf8_lossy`]: the text depends on the bytes alone, and is the text
/// that they encode where they are valid UTF-8. Where they are not, it is left unsaid which
/// replacement characters stand in it.
#[verifier::external_body]
fn decode_lossily(bytes: &[u8]) -> (text: String)
    ensures
        text@ == utf8_lossy(bytes@),
        vstd::utf8::valid_utf8(bytes@) ==> text@ == vstd::utf8::decode_utf8(bytes@),
{
    String::from_utf8_lossy(bytes).into_owned()
}

/// Why a command failed: the error that it reports, else what it printed.
pub open spec fn command_failure(
    reported: Option<HerdrCommandError>,
    printed: Seq<char>,
) -> FailureView {
    match reported {
        Some(error) => FailureView::Command { code: error.code@, message: error.message@ },
        None => FailureView::Other(text::trimmed(printed)),
    }
}

/// Why a command failed: the error that it reports, else what it printed, without the white
/// space around it.
pub fn failure_of(reported: Option<HerdrCommandError>, printed: &str) -> (failure: Failure)
    ensures
        failure@ == command_failure(reported, printed@),
{
    match reported {
        Some(error) => Failure::Command(error),
        None => Failure::Other(trim(printed).to_owned()),
    }
}

/// What the output of a command means.
pub open spec fn output_meaning(output: CommandOutput) -> Result<Seq<u8>, FailureView> {
    if output.success {
        Ok(output.stdout@)
    } else {
        Err(command_failure(output.reported, utf8_lossy(output.stderr@)))
    }
}

/// What the output of a command means: what it wrote, where it ended well, else why it
/// failed.
pub fn interpret_output(output: CommandOutput) -> (result: Result<Vec<u8>, Failure>)
    ensures
        result_view(result) == output_meaning(output),
{
    if output.success {
        Ok(output.stdout)
    } else {
        let printed = decode_lossily(output.stderr.as_slice());
        Err(failure_of(output.reported, printed.as_str()))
    }
}

/// What to do about a command after an event.
pub open spec fn command_next(event: CommandEvent) -> CommandActionView {
    match event {
        CommandEvent::Spawned { remaining } => if remaining == 0 {
            CommandActionView::Kill
        } else {
            CommandActionView::Wait { nanos: remaining }
        },
        CommandEvent::Waited { exited } => if exited {
            CommandActionView::Collect
        } else {
            CommandActionView::Kill
        },
        CommandEvent::Killed => CommandActionView::Finish(
            Err(FailureView::TimedOut("Herdr command timed out"@)),
        ),
        CommandEvent::Collected(output) => CommandActionView::Finish(output_meaning(output)),
        CommandEvent::Failed(failure) => CommandActionView::Finish(Err(failure@)),
    }
}

/// What to do about a command after an event. A command for which no time is left, or that
/// does not exit in time, is stopped, and has then timed out.
pub fn command_step(event: CommandEvent) -> (action: CommandAction)
    ensures
        action@ == command_next(event),
{
    match event {
        CommandEvent::Spawned { remaining } => if remaining == 0 {
            CommandAction::Kill
        } else {
            CommandAction::Wait { nanos: remaining }
        },
        CommandEvent::Waited { exited } => if exited {
            CommandAction::Collect
        } else {
            CommandAction::Kill
        },
        CommandEvent::Killed => CommandAction::Finish(
            Err(Failure::TimedOut("Herdr command timed out".to_owned())),
        ),
        CommandEvent::Collected(output) => CommandAction::Finish(interpret_output(output)),
        CommandEvent::Failed(failure) => CommandAction::Finish(Err(failure)),
    }
}

/// What a command that ended well wrote is handed on byte for byte. One that failed has
/// failed with the error that it reports, code and message as they are, else with what it
/// printed but for the white space around it.
pub proof fn law_output_is_handed_on(output: CommandOutput, printed: Seq<char>)
    ensures
        output.success ==> output_meaning(output) == Ok::<Seq<u8>, FailureView>(output.stdout@),
        !output.success ==> (output.reported matches Some(error) ==> output_meaning(output)
            == Err::<Seq<u8>, FailureView>(
            FailureView::Command { code: error.code@, message: error.message@ },
        )),
        !output.success && output.reported is None ==> output_meaning(output) == Err::<
            Seq<u8>,
            FailureView,
        >(FailureView::Other(text::trimmed(utf8_lossy(output.stderr@)))),
        command_failure(None, printed) == FailureView::Other(text::trimmed(printed)),
        output.reported matches Some(error) ==> command_failure(Some(error), printed)
            == (FailureView::Command { code: error.code@, message: error.message@ }),
{
}

/// A command that was started is waited for as long as there is time, and stopped at once
/// where there is none; one that has not exited by then is stopped and has timed out; and one
/// that has exited is judged by its output.
pub proof fn law_command_gets_its_time(
    remaining: u64,
    exited: bool,
    output: CommandOutput,
    failure: Failure,
)
    ensures
        command_next(CommandEvent::Spawned { remaining }) == if remaining > 0 {
            CommandActionView::Wait { nanos: remaining }
        } else {
            CommandActionView::Kill
        },
        command_next(CommandEvent::Waited { exited }) == if exited {
            CommandActionView::Collect
        } else {
            CommandActionView::Kill
        },
        command_next(CommandEvent::Killed) == CommandActionView::Finish(
            Err(FailureView::TimedOut("Herdr command timed out"@)),
        ),
        command_next(CommandEvent::Collected(output)) == CommandActionView::Finish(
            output_meaning(output),
        ),
        command_next(CommandEvent::Failed(failure)) == CommandActionView::Finish(Err(failure@)),
{
}

/// The views of actions and results leave nothing out.
pub proof fn law_command_views_are_whole(nanos: u64, bytes: Vec<u8>, failure: Failure)
    ensures
        (CommandAction::Wait { nanos })@ == (CommandActionView::Wait { nanos }),
        CommandAction::Kill@ == CommandActionView::Kill,
        CommandAction::Collect@ == CommandActionView::Collect,
        CommandAction::Finish(Ok(bytes))@ == CommandActionView::Finish(Ok(bytes@)),
        CommandAction::Finish(Err(failure))@ == CommandActionView::Finish(Err(failure@)),
        result_view(Ok(bytes)) == Ok::<Seq<u8>, FailureView>(bytes@),
        result_view(Err(failure)) == Err::<Seq<u8>, FailureView>(failure@),
{
}

/// A command is waited for once at most, and its output is collected only once it has
/// exited: after a wait comes the output or the end, and after either the result.
pub proof fn law_command_comes_to_an_end(event: CommandEvent)
    ensures
        command_next(event) is Wait ==> event is Spawned,
        command_next(event) is Collect ==> event == (CommandEvent::Waited { exited: true }),
        event is Killed || event is Collected || event is Failed ==> command_next(event) is Finish,
{
}

} // verus!
