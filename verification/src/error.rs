//! What can go wrong in a profiling run.

use vstd::prelude::*;

verus! {

/// Why a profiling run gave no counters. What the operating system says of an error or of an exit
/// status is kept as text.
#[derive(Debug)]
pub enum RunnerError {
    /// An input or output operation failed.
    Io(String),
    /// The profiler ended without success.
    CommandFailed(String),
    /// The path of an output file has no directory.
    InvalidOutputPath(String),
    /// An output file does not hold what it should.
    ParseError(String),
}

/// The model of a `RunnerError`: its text as characters.
pub enum RunnerErrorView {
    Io(Seq<char>),
    CommandFailed(Seq<char>),
    InvalidOutputPath(Seq<char>),
    ParseError(Seq<char>),
}

impl View for RunnerError {
    type V = RunnerErrorView;

    open spec fn view(&self) -> RunnerErrorView {
        match *self {
            RunnerError::Io(text) => RunnerErrorView::Io(text@),
            RunnerError::CommandFailed(status) => RunnerErrorView::CommandFailed(status@),
            RunnerError::InvalidOutputPath(path) => RunnerErrorView::InvalidOutputPath(path@),
            RunnerError::ParseError(text) => RunnerErrorView::ParseError(text@),
        }
    }
}

impl RunnerErrorView {
    /// The diagnostic text of the error.
    pub open spec fn text(self) -> Seq<char> {
        match self {
            RunnerErrorView::Io(text) => "I/O error: "@ + text,
            RunnerErrorView::CommandFailed(status) => "Command failed: "@ + status,
            RunnerErrorView::InvalidOutputPath(path) => "Invalid output path: "@ + path,
            RunnerErrorView::ParseError(text) => text,
        }
    }
}

impl RunnerError {
    /// The diagnostic text of the error.
    pub fn message(&self) -> (r: String)
        ensures
            r@ == self@.text(),
    {
        match self {
            RunnerError::Io(text) => {
                let mut r: String = "I/O error: ".to_owned();
                r.append(text.as_str());
                r
            },
            RunnerError::CommandFailed(status) => {
                let mut r: String = "Command failed: ".to_owned();
                r.append(status.as_str());
                r
            },
            RunnerError::InvalidOutputPath(path) => {
                let mut r: String = "Invalid output path: ".to_owned();
                r.append(path.as_str());
                r
            },
            RunnerError::ParseError(text) => text.clone(),
        }
    }
}

/// What is said of a failure: what kind it is, and then what the operating system, the profiler or
/// the path was. A complaint about an output file stands for itself.
pub proof fn law_failures_are_told_apart(text: Seq<char>)
    ensures
        RunnerErrorView::Io(text).text() == "I/O error: "@ + text,
        RunnerErrorView::CommandFailed(text).text() == "Command failed: "@ + text,
        RunnerErrorView::InvalidOutputPath(text).text() == "Invalid output path: "@ + text,
        RunnerErrorView::ParseError(text).text() == text,
{
}

/// Failures are modelled as they are.
pub proof fn law_failures_are_modelled_as_they_are(error: RunnerError, text: String)
    ensures
        error == RunnerError::Io(text) ==> error@ == RunnerErrorView::Io(text@),
        error == RunnerError::CommandFailed(text) ==> error@ == RunnerErrorView::CommandFailed(
            text@,
        ),
        error == RunnerError::InvalidOutputPath(text) ==> error@
            == RunnerErrorView::InvalidOutputPath(text@),
        error == RunnerError::ParseError(text) ==> error@ == RunnerErrorView::ParseError(text@),
{
}

} // verus!
