//! What the harness asks of the world outside, and what it is told in reply.

use crate::command::CommandLine;
#[allow(unused_imports)]
use crate::command::CommandView;
#[allow(unused_imports)]
use crate::parse::ContentsView;
use crate::parse::FileContents;
#[allow(unused_imports)]
use crate::text::views;
use vstd::prelude::*;

verus! {

/// What is to be done next.
#[derive(Debug)]
pub enum Action {
    /// Run the benchmark with this index in this process. Replied to with `Done`.
    RunBenchmark { index: usize },
    /// Tell whether an environment variable is set. Replied to with `Answer`.
    ReadVariable { name: String },
    /// Run a command to see whether it works. Replied to with `Exited` or `Failed`.
    Probe { command: CommandLine },
    /// Create a directory and those above it. Replied to with `Done` or `Failed`.
    CreateDirectory { path: String },
    /// Tell whether a file exists. Replied to with `Answer`.
    FileExists { path: String },
    /// Copy a file. Replied to with `Done` or `Failed`.
    CopyFile { from: String, to: String },
    /// Run a profiler. Replied to with `Exited` or `Failed`.
    RunCommand { command: CommandLine },
    /// Read a file. Replied to with `Contents`, or with `Failed` where it cannot be opened.
    ReadFile { path: String },
    /// Write a line to the standard error. Replied to with `Done`.
    PrintError { message: String },
    /// Write lines to the standard output. Replied to with `Done`.
    Print { lines: Vec<String> },
    /// End in a panic: the counters cannot be summed up.
    Abort,
    /// End.
    Finish,
}

/// What came of an action. What the operating system says of an error or of an exit status is kept
/// as text.
#[derive(Debug)]
pub enum Reply {
    /// It was done.
    Done,
    /// It is so, or it is not so.
    Answer(bool),
    /// The command has ended.
    Exited { success: bool, status: String },
    /// The file could be opened, and this could be read of it.
    Contents(FileContents),
    /// It could not be done.
    Failed(String),
}

/// The model of an `Action`.
pub enum ActionView {
    RunBenchmark { index: int },
    ReadVariable { name: Seq<char> },
    Probe { command: CommandView },
    CreateDirectory { path: Seq<char> },
    FileExists { path: Seq<char> },
    CopyFile { from: Seq<char>, to: Seq<char> },
    RunCommand { command: CommandView },
    ReadFile { path: Seq<char> },
    PrintError { message: Seq<char> },
    Print { lines: Seq<Seq<char>> },
    Abort,
    Finish,
}

/// The model of a `Reply`.
pub enum ReplyView {
    Done,
    Answer(bool),
    Exited { success: bool, status: Seq<char> },
    Contents(ContentsView),
    Failed(Seq<char>),
}

impl View for Action {
    type V = ActionView;

    open spec fn view(&self) -> ActionView {
        match *self {
            Action::RunBenchmark { index } => ActionView::RunBenchmark { index: index as int },
            Action::ReadVariable { name } => ActionView::ReadVariable { name: name@ },
            Action::Probe { command } => ActionView::Probe { command: command@ },
            Action::CreateDirectory { path } => ActionView::CreateDirectory { path: path@ },
            Action::FileExists { path } => ActionView::FileExists { path: path@ },
            Action::CopyFile { from, to } => ActionView::CopyFile { from: from@, to: to@ },
            Action::RunCommand { command } => ActionView::RunCommand { command: command@ },
            Action::ReadFile { path } => ActionView::ReadFile { path: path@ },
            Action::PrintError { message } => ActionView::PrintError { message: message@ },
            Action::Print { lines } => ActionView::Print { lines: views(lines@) },
            Action::Abort => ActionView::Abort,
            Action::Finish => ActionView::Finish,
        }
    }
}

impl View for Reply {
    type V = ReplyView;

    open spec fn view(&self) -> ReplyView {
        match *self {
            Reply::Done => ReplyView::Done,
            Reply::Answer(answer) => ReplyView::Answer(answer),
            Reply::Exited { success, status } => ReplyView::Exited { success, status: status@ },
            Reply::Contents(contents) => ReplyView::Contents(contents@),
            Reply::Failed(text) => ReplyView::Failed(text@),
        }
    }
}

impl ActionView {
    /// Whether `reply` is a reply to the action.
    pub open spec fn answered_by(self, reply: ReplyView) -> bool {
        match self {
            ActionView::RunBenchmark { .. } | ActionView::PrintError { .. } | ActionView::Print {
                ..
            } => reply is Done,
            ActionView::ReadVariable { .. } | ActionView::FileExists { .. } => reply is Answer,
            ActionView::Probe { .. } | ActionView::RunCommand { .. } => reply is Exited
                || reply is Failed,
            ActionView::CreateDirectory { .. } | ActionView::CopyFile { .. } => reply is Done
                || reply is Failed,
            ActionView::ReadFile { .. } => reply is Contents || reply is Failed,
            ActionView::Abort | ActionView::Finish => false,
        }
    }

    /// Whether the harness ends here.
    pub open spec fn is_last(self) -> bool {
        self is Abort || self is Finish
    }
}

/// Actions are modelled as they are.
pub proof fn law_actions_are_modelled_as_they_are(
    action: Action,
    index: usize,
    text: String,
    other: String,
    command: CommandLine,
    lines: Vec<String>,
)
    ensures
        action == (Action::RunBenchmark { index }) ==> action@ == (ActionView::RunBenchmark {
            index: index as int,
        }),
        action == (Action::ReadVariable { name: text }) ==> action@ == (ActionView::ReadVariable {
            name: text@,
        }),
        action == (Action::Probe { command }) ==> action@ == (ActionView::Probe {
            command: command@,
        }),
        action == (Action::CreateDirectory { path: text }) ==> action@ == (
        ActionView::CreateDirectory { path: text@ }),
        action == (Action::FileExists { path: text }) ==> action@ == (ActionView::FileExists {
            path: text@,
        }),
        action == (Action::CopyFile { from: text, to: other }) ==> action@ == (
        ActionView::CopyFile { from: text@, to: other@ }),
        action == (Action::RunCommand { command }) ==> action@ == (ActionView::RunCommand {
            command: command@,
        }),
        action == (Action::ReadFile { path: text }) ==> action@ == (ActionView::ReadFile {
            path: text@,
        }),
        action == (Action::PrintError { message: text }) ==> action@ == (ActionView::PrintError {
            message: text@,
        }),
        action == (Action::Print { lines }) ==> action@ == (ActionView::Print {
            lines: views(lines@),
        }),
        action == Action::Abort ==> action@ == ActionView::Abort,
        action == Action::Finish ==> action@ == ActionView::Finish,
{
}

/// Replies are modelled as they are.
pub proof fn law_replies_are_modelled_as_they_are(
    reply: Reply,
    answer: bool,
    text: String,
    contents: FileContents,
)
    ensures
        reply == Reply::Done ==> reply@ == ReplyView::Done,
        reply == Reply::Answer(answer) ==> reply@ == ReplyView::Answer(answer),
        reply == (Reply::Exited { success: answer, status: text }) ==> reply@ == (
        ReplyView::Exited { success: answer, status: text@ }),
        reply == Reply::Contents(contents) ==> reply@ == ReplyView::Contents(contents@),
        reply == Reply::Failed(text) ==> reply@ == ReplyView::Failed(text@),
{
}

} // verus!
