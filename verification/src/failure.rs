//! What can go wrong outside, as far as it matters here.

use vstd::prelude::*;
use vstd::string::*;

use crate::text::same_text;

verus! {

/// An error that Herdr reports for a command.
#[derive(Debug, PartialEq, Eq)]
pub struct HerdrCommandError {
    pub code: String,
    pub message: String,
}

/// Why something asked for did not take place.
#[derive(Debug, PartialEq, Eq)]
pub enum Failure {
    /// Herdr refused a command.
    Command(HerdrCommandError),
    /// It took too long.
    TimedOut(String),
    /// Anything else, in words.
    Other(String),
}

/// A [`Failure`] as sequences of characters.
pub enum FailureView {
    Command { code: Seq<char>, message: Seq<char> },
    TimedOut(Seq<char>),
    Other(Seq<char>),
}

impl View for Failure {
    type V = FailureView;

    open spec fn view(&self) -> FailureView {
        match self {
            Failure::Command(error) => FailureView::Command {
                code: error.code@,
                message: error.message@,
            },
            Failure::TimedOut(text) => FailureView::TimedOut(text@),
            Failure::Other(text) => FailureView::Other(text@),
        }
    }
}

/// The outcome of something that returns nothing.
pub open spec fn outcome<T>(result: Result<T, Failure>) -> Result<(), FailureView> {
    match result {
        Ok(_) => Ok(()),
        Err(failure) => Err(failure@),
    }
}

impl HerdrCommandError {
    /// The error as one line of text: the code, a colon, and the message.
    pub fn describe(&self) -> (line: String)
        ensures
            line@ == self.code@ + ": "@ + self.message@,
    {
        let mut line = self.code.clone();
        line.append(": ");
        line.append(self.message.as_str());
        line
    }
}

impl Failure {
    /// The failure as one line of text.
    pub fn describe(&self) -> (line: String)
        ensures
            line@ == match self@ {
                FailureView::Command { code, message } => code + ": "@ + message,
                FailureView::TimedOut(text) => text,
                FailureView::Other(text) => text,
            },
    {
        match self {
            Failure::Command(error) => error.describe(),
            Failure::TimedOut(text) => text.clone(),
            Failure::Other(text) => text.clone(),
        }
    }
}

/// Whether Herdr says that there is no such tab.
pub open spec fn tab_not_found(failure: FailureView) -> bool {
    failure matches FailureView::Command { code, .. } && code == "tab_not_found"@
}

/// Whether Herdr says that there is no such tab.
pub fn is_tab_not_found(failure: &Failure) -> (found: bool)
    ensures
        found == tab_not_found(failure@),
{
    match failure {
        Failure::Command(error) => same_text(error.code.as_str(), "tab_not_found"),
        _ => false,
    }
}

/// A failure says that there is no such tab just where Herdr reports it with that code: a
/// timeout or anything else in words does not, whatever the words.
pub proof fn law_missing_tab_goes_by_its_code(code: Seq<char>, message: Seq<char>)
    ensures
        tab_not_found(FailureView::Command { code, message }) <==> code == seq![
            't', 'a', 'b', '_', 'n', 'o', 't', '_', 'f', 'o', 'u', 'n', 'd',
        ],
        !tab_not_found(FailureView::TimedOut(message)),
        !tab_not_found(FailureView::Other(message)),
{
    reveal_strlit("tab_not_found");
    assert("tab_not_found"@ =~= seq![
        't', 'a', 'b', '_', 'n', 'o', 't', '_', 'f', 'o', 'u', 'n', 'd',
    ]);
}

/// The view of a failure leaves nothing out.
pub proof fn law_failure_views_are_whole<T>(error: HerdrCommandError, words: String, value: T)
    ensures
        Failure::Command(error)@ == (FailureView::Command {
            code: error.code@,
            message: error.message@,
        }),
        Failure::TimedOut(words)@ == FailureView::TimedOut(words@),
        Failure::Other(words)@ == FailureView::Other(words@),
        outcome(Ok::<T, Failure>(value)) is Ok,
        outcome(Err::<T, Failure>(Failure::Other(words))) == Err::<(), FailureView>(
            FailureView::Other(words@),
        ),
        outcome(Err::<T, Failure>(Failure::TimedOut(words))) == Err::<(), FailureView>(
            FailureView::TimedOut(words@),
        ),
        outcome(Err::<T, Failure>(Failure::Command(error))) == Err::<(), FailureView>(
            FailureView::Command { code: error.code@, message: error.message@ },
        ),
{
}

} // verus!
