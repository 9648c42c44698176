//! The course of a benchmark run: what the harness does, in which order, and how it ends.
//!
//! The harness does nothing to the world outside itself. A session tells what is to be done next,
//! takes the reply, and goes on from there.

use crate::command::{
    cachegrind, cachegrind_output_files, callgrind, callgrind_output_files, probe_command, valgrind,
    CachegrindRun, OutputFiles, Platform,
};
#[allow(unused_imports)]
use crate::command::{
    cachegrind_command, cachegrind_files, callgrind_command, callgrind_files, launcher, probe,
    CommandView, OutputFilesView,
};
use crate::error::RunnerError;
#[allow(unused_imports)]
use crate::error::RunnerErrorView;
use crate::invocation::{parse_invocation, InvocationMode, InvocationParseError};
#[allow(unused_imports)]
use crate::invocation::{executable_of, mode_of};
use crate::parse::{parse_cachegrind_output, parse_callgrind_output};
#[allow(unused_imports)]
use crate::parse::{cachegrind_stats, callgrind_stats, ContentsView};
use crate::protocol::{Action, Reply};
#[allow(unused_imports)]
use crate::protocol::{ActionView, ReplyView};
use crate::report::{
    display_grouped_by_benchmark, display_grouped_by_tool, display_single_tool, BenchResult,
    CallgrindResults, Output,
};
#[allow(unused_imports)]
use crate::report::{
    cachegrind_view, callgrind_view, grouped_by_benchmark, grouped_by_tool, result_views,
    single_tool, BenchResultView, CallgrindResultsView, OutputView,
};
#[allow(unused_imports)]
use crate::stats::CachegrindStats;
use crate::stats::{BenchStats, BenchStatsMap};
#[allow(unused_imports)]
use crate::text::views;
use crate::tool::Tool;
use vstd::prelude::*;

verus! {

/// What the harness was built with, and what it runs on.
pub struct Config {
    /// Whether the benchmarks are run under Cachegrind.
    pub cachegrind: bool,
    /// Whether the benchmarks are run under Callgrind.
    pub callgrind: bool,
    pub platform: Platform,
    /// The architecture of the processor.
    pub arch: String,
}

/// The model of a `Config`.
pub struct ConfigView {
    pub cachegrind: bool,
    pub callgrind: bool,
    pub platform: Platform,
    pub arch: Seq<char>,
}

impl View for Config {
    type V = ConfigView;

    open spec fn view(&self) -> ConfigView {
        ConfigView {
            cachegrind: self.cachegrind,
            callgrind: self.callgrind,
            platform: self.platform,
            arch: self.arch@,
        }
    }
}

/// How far a profiling run has come. `T` is what one output file gives.
pub enum Stage<T> {
    /// The directory of the output file is being created.
    CreatingDirectory,
    /// It is being looked up whether there is an output file of the run before.
    CheckingOutput,
    /// The output file of the run before is being put aside.
    SavingOutput,
    /// The profiler is running.
    Running,
    /// The output file is being read.
    Reading,
    /// It is being looked up whether an output file was put aside.
    CheckingOld { fresh: T },
    /// The output file that was put aside is being read.
    ReadingOld { fresh: T },
}

/// What the reply to an action of a profiling run leads to.
pub enum Progress<T> {
    /// The run goes on.
    Continue(Stage<T>),
    /// The run has failed.
    Failed(RunnerError),
    /// The run is over: this is what it gave, and what the run before had given.
    Obtained { fresh: T, old: Option<T> },
}

/// The model of a `Progress`.
pub enum ProgressView<T> {
    Continue(Stage<T>),
    Failed(RunnerErrorView),
    Obtained { fresh: T, old: Option<T> },
}

/// The stage with what was read replaced by its model.
pub open spec fn stage_view<T: View>(stage: Stage<T>) -> Stage<T::V> {
    match stage {
        Stage::CreatingDirectory => Stage::CreatingDirectory,
        Stage::CheckingOutput => Stage::CheckingOutput,
        Stage::SavingOutput => Stage::SavingOutput,
        Stage::Running => Stage::Running,
        Stage::Reading => Stage::Reading,
        Stage::CheckingOld { fresh } => Stage::CheckingOld { fresh: fresh@ },
        Stage::ReadingOld { fresh } => Stage::ReadingOld { fresh: fresh@ },
    }
}

/// The model of a progress.
pub open spec fn progress_view<T: View>(progress: Progress<T>) -> ProgressView<T::V> {
    match progress {
        Progress::Continue(stage) => ProgressView::Continue(stage_view(stage)),
        Progress::Failed(error) => ProgressView::Failed(error@),
        Progress::Obtained { fresh, old } => ProgressView::Obtained {
            fresh: fresh@,
            old: match old {
                Some(old) => Some(old@),
                None => None,
            },
        },
    }
}

/// What is done in a stage of a profiling run.
pub open spec fn stage_action<T>(
    stage: Stage<T>,
    files: OutputFilesView,
    command: CommandView,
) -> ActionView {
    match stage {
        Stage::CreatingDirectory => ActionView::CreateDirectory { path: files.directory },
        Stage::CheckingOutput => ActionView::FileExists { path: files.output },
        Stage::SavingOutput => ActionView::CopyFile { from: files.output, to: files.old_output },
        Stage::Running => ActionView::RunCommand { command },
        Stage::Reading => ActionView::ReadFile { path: files.output },
        Stage::CheckingOld { .. } => ActionView::FileExists { path: files.old_output },
        Stage::ReadingOld { .. } => ActionView::ReadFile { path: files.old_output },
    }
}

/// What a reply leads to in a profiling run. `read` says what the contents of an output file give,
/// and `files` are the files of the run. A reply that is none leads nowhere.
pub open spec fn stage_progress<T>(
    stage: Stage<T>,
    files: OutputFilesView,
    reply: ReplyView,
    read: spec_fn(ContentsView, Seq<char>) -> Result<T, RunnerErrorView>,
) -> ProgressView<T> {
    match (stage, reply) {
        (Stage::CreatingDirectory, ReplyView::Done) => ProgressView::Continue(
            Stage::CheckingOutput,
        ),
        (Stage::CreatingDirectory, ReplyView::Failed(text)) => ProgressView::Failed(
            RunnerErrorView::Io(text),
        ),
        (Stage::CheckingOutput, ReplyView::Answer(exists)) => if exists {
            ProgressView::Continue(Stage::SavingOutput)
        } else {
            ProgressView::Continue(Stage::Running)
        },
        (Stage::SavingOutput, ReplyView::Done) => ProgressView::Continue(Stage::Running),
        (Stage::SavingOutput, ReplyView::Failed(text)) => ProgressView::Failed(
            RunnerErrorView::Io(text),
        ),
        (Stage::Running, ReplyView::Exited { success, status }) => if success {
            ProgressView::Continue(Stage::Reading)
        } else {
            ProgressView::Failed(RunnerErrorView::CommandFailed(status))
        },
        (Stage::Running, ReplyView::Failed(text)) => ProgressView::Failed(
            RunnerErrorView::Io(text),
        ),
        (Stage::Reading, ReplyView::Contents(contents)) => match read(contents, files.output) {
            Ok(fresh) => ProgressView::Continue(Stage::CheckingOld { fresh }),
            Err(error) => ProgressView::Failed(error),
        },
        (Stage::Reading, ReplyView::Failed(text)) => ProgressView::Failed(
            RunnerErrorView::Io(text),
        ),
        (Stage::CheckingOld { fresh }, ReplyView::Answer(exists)) => if exists {
            ProgressView::Continue(Stage::ReadingOld { fresh })
        } else {
            ProgressView::Obtained { fresh, old: None }
        },
        (Stage::ReadingOld { fresh }, ReplyView::Contents(contents)) => match read(
            contents,
            files.old_output,
        ) {
            Ok(old) => ProgressView::Obtained { fresh, old: Some(old) },
            Err(error) => ProgressView::Failed(error),
        },
        (Stage::ReadingOld { fresh }, ReplyView::Failed(text)) => ProgressView::Failed(
            RunnerErrorView::Io(text),
        ),
        (stage, _) => ProgressView::Continue(stage),
    }
}

/// How far the runs of Cachegrind have come.
pub enum CachegrindJob {
    /// The harness itself is being measured.
    Calibrating,
    /// The benchmark with this index is being measured.
    Measuring {
        index: usize,
        calibration: BenchStats,
        old_calibration: Option<BenchStats>,
        /// The results of the benchmarks before it.
        results: Vec<BenchResult>,
    },
}

/// The model of a `CachegrindJob`.
pub enum CachegrindJobView {
    Calibrating,
    Measuring {
        index: int,
        calibration: CachegrindStats,
        old_calibration: Option<CachegrindStats>,
        results: Seq<BenchResultView>,
    },
}

impl View for CachegrindJob {
    type V = CachegrindJobView;

    open spec fn view(&self) -> CachegrindJobView {
        match *self {
            CachegrindJob::Calibrating => CachegrindJobView::Calibrating,
            CachegrindJob::Measuring { index, calibration, old_calibration, results } => {
                CachegrindJobView::Measuring {
                    index: index as int,
                    calibration,
                    old_calibration,
                    results: result_views(results@),
                }
            },
        }
    }
}

impl CachegrindJobView {
    /// The run that the job is at.
    pub open spec fn run(self) -> CachegrindRun {
        match self {
            CachegrindJobView::Calibrating => CachegrindRun::Calibration,
            CachegrindJobView::Measuring { index, .. } => CachegrindRun::Benchmark(index as usize),
        }
    }
}

/// Where a session stands.
#[allow(inconsistent_fields)]
pub enum Phase {
    /// The benchmarks from `next` up to `end` are still to be run in this process.
    RunningChild { next: usize, end: usize },
    /// It is being looked up whether addresses may be randomised.
    AskingAslr,
    /// It is being looked up how the reports are to be grouped.
    AskingGrouping,
    /// It is being looked up whether the tool can be started.
    Probing { tool: Tool },
    /// Cachegrind is at work.
    Cachegrind { job: CachegrindJob, files: OutputFiles, stage: Stage<BenchStats> },
    /// Callgrind is at work.
    Callgrind { files: OutputFiles, stage: Stage<BenchStatsMap> },
    /// A tool has failed, and that is being said.
    ReportingFailure { tool: Tool, error: RunnerError },
    /// The results are being shown.
    Showing { output: Output },
    /// Nothing can be done, and that is being said.
    Stopping { message: String },
    /// The counters cannot be summed up.
    Aborted,
    /// All is done.
    Finished,
}

/// The model of a `Phase`.
#[allow(inconsistent_fields)]
pub enum PhaseView {
    RunningChild { next: int, end: int },
    AskingAslr,
    AskingGrouping,
    Probing { tool: Tool },
    Cachegrind { job: CachegrindJobView, files: OutputFilesView, stage: Stage<CachegrindStats> },
    Callgrind { files: OutputFilesView, stage: Stage<Map<Seq<char>, CachegrindStats>> },
    ReportingFailure { tool: Tool, error: RunnerErrorView },
    Showing { output: OutputView },
    Stopping { message: Seq<char> },
    Aborted,
    Finished,
}

impl View for Phase {
    type V = PhaseView;

    open spec fn view(&self) -> PhaseView {
        match *self {
            Phase::RunningChild { next, end } => PhaseView::RunningChild {
                next: next as int,
                end: end as int,
            },
            Phase::AskingAslr => PhaseView::AskingAslr,
            Phase::AskingGrouping => PhaseView::AskingGrouping,
            Phase::Probing { tool } => PhaseView::Probing { tool },
            Phase::Cachegrind { job, files, stage } => PhaseView::Cachegrind {
                job: job@,
                files: files@,
                stage: stage_view(stage),
            },
            Phase::Callgrind { files, stage } => PhaseView::Callgrind {
                files: files@,
                stage: stage_view(stage),
            },
            Phase::ReportingFailure { tool, error } => PhaseView::ReportingFailure {
                tool,
                error: error@,
            },
            Phase::Showing { output } => PhaseView::Showing { output: output@ },
            Phase::Stopping { message } => PhaseView::Stopping { message: message@ },
            Phase::Aborted => PhaseView::Aborted,
            Phase::Finished => PhaseView::Finished,
        }
    }
}

/// What a session knows.
pub struct Harness {
    config: Config,
    /// The names of the benchmarks.
    names: Vec<String>,
    /// The binary that child processes are started with.
    executable: String,
    allow_aslr: bool,
    group_by_benchmark: bool,
    /// The results of Cachegrind, where it was run and has not failed.
    cachegrind: Option<Vec<BenchResult>>,
    /// The results of Callgrind, where it was run and has not failed.
    callgrind: Option<CallgrindResults>,
}

/// The model of a `Harness`.
pub struct HarnessView {
    pub config: ConfigView,
    pub names: Seq<Seq<char>>,
    pub executable: Seq<char>,
    pub allow_aslr: bool,
    pub group_by_benchmark: bool,
    pub cachegrind: Option<Seq<BenchResultView>>,
    pub callgrind: Option<CallgrindResultsView>,
}

impl View for Harness {
    type V = HarnessView;

    closed spec fn view(&self) -> HarnessView {
        HarnessView {
            config: self.config@,
            names: views(self.names@),
            executable: self.executable@,
            allow_aslr: self.allow_aslr,
            group_by_benchmark: self.group_by_benchmark,
            cachegrind: cachegrind_view(self.cachegrind),
            callgrind: callgrind_view(self.callgrind),
        }
    }
}

/// A benchmark run: what is known of it, and where it stands.
pub struct Session {
    harness: Harness,
    phase: Phase,
}

/// The model of a `Session`.
pub struct SessionView {
    pub harness: HarnessView,
    pub phase: PhaseView,
}

impl View for Session {
    type V = SessionView;

    closed spec fn view(&self) -> SessionView {
        SessionView { harness: self.harness@, phase: self.phase@ }
    }
}

/// The result of a benchmark: what was counted in its run, and in the run before, each without what
/// was counted in the calibration.
pub open spec fn measured(
    name: Seq<char>,
    fresh: CachegrindStats,
    old: Option<CachegrindStats>,
    calibration: CachegrindStats,
    old_calibration: Option<CachegrindStats>,
) -> BenchResultView {
    BenchResultView {
        name,
        stats: fresh.less(calibration),
        old_stats: match (old, old_calibration) {
            (Some(old), Some(old_calibration)) => Some(old.less(old_calibration)),
            _ => None,
        },
    }
}

impl HarnessView {
    /// The session with this knowledge in a phase.
    pub open spec fn at(self, phase: PhaseView) -> SessionView {
        SessionView { harness: self, phase }
    }

    /// Whether both tools are in use.
    pub open spec fn both_active(self) -> bool {
        self.config.cachegrind && self.config.callgrind
    }

    /// What is shown of the results.
    #[verifier::opaque]
    pub open spec fn output(self) -> OutputView {
        if self.group_by_benchmark {
            grouped_by_benchmark(self.names, self.cachegrind, self.callgrind)
        } else if self.both_active() {
            grouped_by_tool(self.names, self.cachegrind, self.callgrind)
        } else {
            single_tool(self.names, self.cachegrind, self.callgrind)
        }
    }

    /// The session when all tools are done.
    pub open spec fn showing(self) -> SessionView {
        self.at(PhaseView::Showing { output: self.output() })
    }

    /// The session when Cachegrind is done.
    pub open spec fn after_cachegrind(self) -> SessionView {
        if self.config.callgrind {
            self.at(PhaseView::Probing { tool: Tool::Callgrind })
        } else {
            self.showing()
        }
    }

    /// The session when it is known what the environment asks for.
    pub open spec fn at_first_tool(self) -> SessionView {
        if self.config.cachegrind {
            self.at(PhaseView::Probing { tool: Tool::Cachegrind })
        } else {
            self.after_cachegrind()
        }
    }

    /// The session when a run of Cachegrind begins.
    pub open spec fn at_cachegrind(self, job: CachegrindJobView) -> SessionView {
        match cachegrind_files(job.run().name(self.names)) {
            Ok(files) => self.at(
                PhaseView::Cachegrind { job, files, stage: Stage::CreatingDirectory },
            ),
            Err(error) => self.at(PhaseView::ReportingFailure { tool: Tool::Cachegrind, error }),
        }
    }

    /// The session when the run of Callgrind begins.
    pub open spec fn at_callgrind(self) -> SessionView {
        match callgrind_files() {
            Ok(files) => self.at(PhaseView::Callgrind { files, stage: Stage::CreatingDirectory }),
            Err(error) => self.at(PhaseView::ReportingFailure { tool: Tool::Callgrind, error }),
        }
    }

    /// The session when the first `index` benchmarks have been measured by Cachegrind.
    pub open spec fn at_benchmark(
        self,
        index: int,
        calibration: CachegrindStats,
        old_calibration: Option<CachegrindStats>,
        results: Seq<BenchResultView>,
    ) -> SessionView {
        if index < self.names.len() {
            self.at_cachegrind(
                CachegrindJobView::Measuring { index, calibration, old_calibration, results },
            )
        } else {
            HarnessView { cachegrind: Some(results), ..self }.after_cachegrind()
        }
    }

    /// The session when a run of Cachegrind has given counters, and the run before had given the
    /// counters `old`.
    pub open spec fn after_cachegrind_run(
        self,
        job: CachegrindJobView,
        fresh: CachegrindStats,
        old: Option<CachegrindStats>,
    ) -> SessionView {
        match job {
            CachegrindJobView::Calibrating => self.at_benchmark(0, fresh, old, Seq::empty()),
            CachegrindJobView::Measuring { index, calibration, old_calibration, results } => {
                self.at_benchmark(
                    index + 1,
                    calibration,
                    old_calibration,
                    results.push(
                        measured(self.names[index], fresh, old, calibration, old_calibration),
                    ),
                )
            },
        }
    }

    /// The session when the run of Callgrind has given counters.
    pub open spec fn after_callgrind_run(
        self,
        fresh: Map<Seq<char>, CachegrindStats>,
        old: Option<Map<Seq<char>, CachegrindStats>>,
    ) -> SessionView {
        let results = CallgrindResultsView {
            stats: fresh,
            old_stats: match old {
                Some(old) => old,
                None => Map::empty(),
            },
        };
        HarnessView { callgrind: Some(results), ..self }.showing()
    }

    /// The session when it is known whether a tool can be started.
    pub open spec fn after_probe(self, tool: Tool, reply: ReplyView) -> SessionView {
        match reply {
            ReplyView::Exited { success, status } => if !success {
                self.at(PhaseView::Stopping { message: launch_failure(tool, status) })
            } else {
                match tool {
                    Tool::Cachegrind => self.at_cachegrind(CachegrindJobView::Calibrating),
                    Tool::Callgrind => self.at_callgrind(),
                }
            },
            ReplyView::Failed(text) => self.at(
                PhaseView::Stopping {
                    message: "Unexpected error while launching valgrind: "@ + text,
                },
            ),
            _ => self.at(PhaseView::Probing { tool }),
        }
    }

    /// The session when a run of Cachegrind has come further.
    pub open spec fn in_cachegrind(
        self,
        job: CachegrindJobView,
        files: OutputFilesView,
        progress: ProgressView<CachegrindStats>,
    ) -> SessionView {
        match progress {
            ProgressView::Continue(stage) => self.at(PhaseView::Cachegrind { job, files, stage }),
            ProgressView::Failed(error) => self.at(
                PhaseView::ReportingFailure { tool: Tool::Cachegrind, error },
            ),
            ProgressView::Obtained { fresh, old } => self.after_cachegrind_run(job, fresh, old),
        }
    }

    /// The session when the run of Callgrind has come further.
    pub open spec fn in_callgrind(
        self,
        files: OutputFilesView,
        progress: ProgressView<Map<Seq<char>, CachegrindStats>>,
    ) -> SessionView {
        match progress {
            ProgressView::Continue(stage) => self.at(PhaseView::Callgrind { files, stage }),
            ProgressView::Failed(error) => self.at(
                PhaseView::ReportingFailure { tool: Tool::Callgrind, error },
            ),
            ProgressView::Obtained { fresh, old } => self.after_callgrind_run(fresh, old),
        }
    }
}

impl SessionView {
    /// The session after the reply to its pending action. A reply that is none changes nothing.
    pub open spec fn next(self, reply: ReplyView) -> SessionView {
        let harness = self.harness;
        match self.phase {
            PhaseView::RunningChild { next, end } => match reply {
                ReplyView::Done => if next + 1 < end {
                    harness.at(PhaseView::RunningChild { next: next + 1, end })
                } else {
                    harness.at(PhaseView::Finished)
                },
                _ => self,
            },
            PhaseView::AskingAslr => match reply {
                ReplyView::Answer(set) => {
                    let asked = HarnessView { allow_aslr: set, ..harness };
                    if harness.both_active() {
                        asked.at(PhaseView::AskingGrouping)
                    } else {
                        asked.at_first_tool()
                    }
                },
                _ => self,
            },
            PhaseView::AskingGrouping => match reply {
                ReplyView::Answer(set) => HarnessView {
                    group_by_benchmark: set,
                    ..harness
                }.at_first_tool(),
                _ => self,
            },
            PhaseView::Probing { tool } => harness.after_probe(tool, reply),
            PhaseView::Cachegrind { job, files, stage } => harness.in_cachegrind(
                job,
                files,
                stage_progress(
                    stage,
                    files,
                    reply,
                    |contents: ContentsView, path: Seq<char>| cachegrind_stats(contents, path),
                ),
            ),
            PhaseView::Callgrind { files, stage } => harness.in_callgrind(
                files,
                stage_progress(
                    stage,
                    files,
                    reply,
                    |contents: ContentsView, path: Seq<char>| callgrind_stats(contents, path),
                ),
            ),
            PhaseView::ReportingFailure { tool, .. } => match reply {
                ReplyView::Done => match tool {
                    Tool::Cachegrind => harness.after_cachegrind(),
                    Tool::Callgrind => harness.showing(),
                },
                _ => self,
            },
            PhaseView::Showing { output } => match reply {
                ReplyView::Done => if output.complete {
                    harness.at(PhaseView::Finished)
                } else {
                    harness.at(PhaseView::Aborted)
                },
                _ => self,
            },
            PhaseView::Stopping { .. } => match reply {
                ReplyView::Done => harness.at(PhaseView::Finished),
                _ => self,
            },
            PhaseView::Aborted | PhaseView::Finished => self,
        }
    }

    /// What is to be done next.
    pub open spec fn pending(self) -> ActionView {
        let harness = self.harness;
        let launch = launcher(harness.config.platform, harness.config.arch, harness.allow_aslr);
        match self.phase {
            PhaseView::RunningChild { next, .. } => ActionView::RunBenchmark { index: next },
            PhaseView::AskingAslr => ActionView::ReadVariable { name: "IAI_ALLOW_ASLR"@ },
            PhaseView::AskingGrouping => ActionView::ReadVariable {
                name: "IAI_GROUP_BY_BENCHMARK"@,
            },
            PhaseView::Probing { tool } => ActionView::Probe { command: probe(tool) },
            PhaseView::Cachegrind { job, files, stage } => stage_action(
                stage,
                files,
                cachegrind_command(launch, files.output, harness.executable, job.run()),
            ),
            PhaseView::Callgrind { files, stage } => stage_action(
                stage,
                files,
                callgrind_command(launch, files.output, harness.executable, harness.names),
            ),
            PhaseView::ReportingFailure { tool, error } => ActionView::PrintError {
                message: tool.title_text() + " failed: "@ + error.text(),
            },
            PhaseView::Showing { output } => ActionView::Print { lines: output.lines },
            PhaseView::Stopping { message } => ActionView::PrintError { message },
            PhaseView::Aborted => ActionView::Abort,
            PhaseView::Finished => ActionView::Finish,
        }
    }
}

/// What is said where Valgrind ends without success.
pub open spec fn launch_failure(tool: Tool, status: Seq<char>) -> Seq<char> {
    "Failed to launch valgrind (--tool="@ + tool.text() + "): "@ + status
        + ". Please ensure that valgrind is installed and on the $PATH."@
}

/// How a process begins that was started with `args`.
///
/// A child with an index runs that benchmark, and none where the index is out of range. A child
/// without an index runs all benchmarks. Anything else than `--iai-run` starts the harness.
pub open spec fn first_phase(
    config: ConfigView,
    names: Seq<Seq<char>>,
    args: Seq<Seq<char>>,
) -> PhaseView {
    match mode_of(args) {
        Ok(InvocationMode::Parent) => PhaseView::AskingAslr,
        Ok(InvocationMode::Child { benchmark_index }) => if !config.cachegrind {
            PhaseView::Stopping {
                message: "Indexed child mode requires the 'cachegrind' feature"@,
            }
        } else if 0 <= benchmark_index < names.len() {
            PhaseView::RunningChild {
                next: benchmark_index as int,
                end: benchmark_index + 1,
            }
        } else {
            PhaseView::Finished
        },
        Err(InvocationParseError::MissingBenchmarkIndex) => if !config.callgrind {
            PhaseView::Stopping { message: "Child mode requires the 'callgrind' feature"@ }
        } else if names.len() > 0 {
            PhaseView::RunningChild { next: 0, end: names.len() as int }
        } else {
            PhaseView::Finished
        },
        Err(error) => PhaseView::Stopping { message: error.text() },
    }
}

/// The session of a process that was started with `args`.
pub open spec fn first_session(
    config: ConfigView,
    names: Seq<Seq<char>>,
    args: Seq<Seq<char>>,
) -> SessionView {
    HarnessView {
        config,
        names,
        executable: executable_of(args),
        allow_aslr: false,
        group_by_benchmark: false,
        cachegrind: None,
        callgrind: None,
    }.at(first_phase(config, names, args))
}

/// What a reply other than the contents of a file leads to in a profiling run.
fn plain_progress<T: View>(stage: Stage<T>, reply: Reply) -> (r: Progress<T>)
    requires
        !(reply is Contents),
    ensures
        forall|
            files: OutputFilesView,
            read: spec_fn(ContentsView, Seq<char>) -> Result<T::V, RunnerErrorView>,
        |
            progress_view(r) == #[trigger] stage_progress(
                stage_view(stage),
                files,
                reply@,
                read,
            ),
{
    match (stage, reply) {
        (Stage::CreatingDirectory, Reply::Done) => Progress::Continue(Stage::CheckingOutput),
        (Stage::CreatingDirectory, Reply::Failed(text)) => Progress::Failed(RunnerError::Io(text)),
        (Stage::CheckingOutput, Reply::Answer(exists)) => if exists {
            Progress::Continue(Stage::SavingOutput)
        } else {
            Progress::Continue(Stage::Running)
        },
        (Stage::SavingOutput, Reply::Done) => Progress::Continue(Stage::Running),
        (Stage::SavingOutput, Reply::Failed(text)) => Progress::Failed(RunnerError::Io(text)),
        (Stage::Running, Reply::Exited { success, status }) => if success {
            Progress::Continue(Stage::Reading)
        } else {
            Progress::Failed(RunnerError::CommandFailed(status))
        },
        (Stage::Running, Reply::Failed(text)) => Progress::Failed(RunnerError::Io(text)),
        (Stage::Reading, Reply::Failed(text)) => Progress::Failed(RunnerError::Io(text)),
        (Stage::CheckingOld { fresh }, Reply::Answer(exists)) => if exists {
            Progress::Continue(Stage::ReadingOld { fresh })
        } else {
            Progress::Obtained { fresh, old: None }
        },
        (Stage::ReadingOld { fresh }, Reply::Failed(text)) => Progress::Failed(
            RunnerError::Io(text),
        ),
        (stage, _) => Progress::Continue(stage),
    }
}

/// What a reply leads to in a run of Cachegrind.
fn cachegrind_progress(stage: Stage<BenchStats>, files: &OutputFiles, reply: Reply) -> (r: Progress<
    BenchStats,
>)
    ensures
        progress_view(r) == stage_progress(
            stage_view(stage),
            files@,
            reply@,
            |contents: ContentsView, path: Seq<char>| cachegrind_stats(contents, path),
        ),
{
    match reply {
        Reply::Contents(contents) => match stage {
            Stage::Reading => match parse_cachegrind_output(&contents, files.output.as_str()) {
                Ok(fresh) => Progress::Continue(Stage::CheckingOld { fresh }),
                Err(error) => Progress::Failed(error),
            },
            Stage::ReadingOld { fresh } => match parse_cachegrind_output(
                &contents,
                files.old_output.as_str(),
            ) {
                Ok(old) => Progress::Obtained { fresh, old: Some(old) },
                Err(error) => Progress::Failed(error),
            },
            stage => Progress::Continue(stage),
        },
        reply => plain_progress(stage, reply),
    }
}

/// What a reply leads to in the run of Callgrind.
fn callgrind_progress(stage: Stage<BenchStatsMap>, files: &OutputFiles, reply: Reply) -> (r:
    Progress<BenchStatsMap>)
    ensures
        progress_view(r) == stage_progress(
            stage_view(stage),
            files@,
            reply@,
            |contents: ContentsView, path: Seq<char>| callgrind_stats(contents, path),
        ),
{
    match reply {
        Reply::Contents(contents) => match stage {
            Stage::Reading => match parse_callgrind_output(&contents, files.output.as_str()) {
                Ok(fresh) => Progress::Continue(Stage::CheckingOld { fresh }),
                Err(error) => Progress::Failed(error),
            },
            Stage::ReadingOld { fresh } => match parse_callgrind_output(
                &contents,
                files.old_output.as_str(),
            ) {
                Ok(old) => Progress::Obtained { fresh, old: Some(old) },
                Err(error) => Progress::Failed(error),
            },
            stage => Progress::Continue(stage),
        },
        reply => plain_progress(stage, reply),
    }
}

/// Whether the benchmarks that a phase speaks of are among the first `n`.
spec fn phase_in_range(phase: Phase, n: nat) -> bool {
    match phase {
        Phase::RunningChild { next, end } => next < end <= n,
        Phase::Cachegrind { job: CachegrindJob::Measuring { index, .. }, .. } => index < n,
        _ => true,
    }
}

/// Copies of the strings `texts`.
fn copy_texts(texts: &[String]) -> (r: Vec<String>)
    ensures
        views(r@) == views(texts@),
{
    let mut r: Vec<String> = Vec::new();
    let mut i: usize = 0;
    while i < texts.len()
        invariant
            i <= texts@.len(),
            views(r@) == views(texts@).take(i as int),
        decreases texts@.len() - i,
    {
        let ghost before = r@;
        r.push(texts[i].clone());
        i = i + 1;
        assert(views(r@) == views(before).push(texts@[i - 1]@));
        assert(views(r@) == views(texts@).take(i as int));
    }
    assert(views(r@) == views(texts@));
    r
}

/// What is done in a stage of a profiling run, unless that is to run the profiler.
fn stage_path_action<T: View>(stage: &Stage<T>, files: &OutputFiles) -> (r: Option<Action>)
    ensures
        match r {
            Some(action) => forall|command: CommandView| #[trigger]
                stage_action(stage_view(*stage), files@, command) == action@,
            None => stage is Running,
        },
{
    match stage {
        Stage::CreatingDirectory => Some(Action::CreateDirectory { path: files.directory.clone() }),
        Stage::CheckingOutput => Some(Action::FileExists { path: files.output.clone() }),
        Stage::SavingOutput => Some(
            Action::CopyFile { from: files.output.clone(), to: files.old_output.clone() },
        ),
        Stage::Running => None,
        Stage::Reading => Some(Action::ReadFile { path: files.output.clone() }),
        Stage::CheckingOld { .. } => Some(Action::FileExists { path: files.old_output.clone() }),
        Stage::ReadingOld { .. } => Some(Action::ReadFile { path: files.old_output.clone() }),
    }
}

impl Session {
    #[verifier::type_invariant]
    spec fn wf(self) -> bool {
        phase_in_range(self.phase, self.harness.names@.len())
    }
}

impl Harness {
    /// The session with this knowledge in a phase.
    fn at(self, phase: Phase) -> (r: Session)
        requires
            phase_in_range(phase, self@.names.len()),
        ensures
            r@ == self@.at(phase@),
    {
        Session { harness: self, phase }
    }

    /// The session when all tools are done.
    fn show(self) -> (r: Session)
        ensures
            r@ == self@.showing(),
    {
        proof {
            reveal(HarnessView::output);
        }
        let output = if self.group_by_benchmark {
            display_grouped_by_benchmark(self.names.as_slice(), &self.cachegrind, &self.callgrind)
        } else if self.config.cachegrind && self.config.callgrind {
            display_grouped_by_tool(self.names.as_slice(), &self.cachegrind, &self.callgrind)
        } else {
            display_single_tool(self.names.as_slice(), &self.cachegrind, &self.callgrind)
        };
        self.at(Phase::Showing { output })
    }

    /// The session when Cachegrind is done.
    fn leave_cachegrind(self) -> (r: Session)
        ensures
            r@ == self@.after_cachegrind(),
    {
        if self.config.callgrind {
            self.at(Phase::Probing { tool: Tool::Callgrind })
        } else {
            self.show()
        }
    }

    /// The session when it is known what the environment asks for.
    fn enter_first_tool(self) -> (r: Session)
        ensures
            r@ == self@.at_first_tool(),
    {
        if self.config.cachegrind {
            self.at(Phase::Probing { tool: Tool::Cachegrind })
        } else {
            self.leave_cachegrind()
        }
    }

    /// The session when a run of Cachegrind begins.
    fn enter_cachegrind(self, job: CachegrindJob) -> (r: Session)
        requires
            job matches CachegrindJob::Measuring { index, .. } ==> index < self@.names.len(),
        ensures
            r@ == self@.at_cachegrind(job@),
    {
        let files = match &job {
            CachegrindJob::Calibrating => cachegrind_output_files("iai_calibration"),
            CachegrindJob::Measuring { index, .. } => {
                cachegrind_output_files(self.names[*index].as_str())
            },
        };
        match files {
            Ok(files) => self.at(Phase::Cachegrind { job, files, stage: Stage::CreatingDirectory }),
            Err(error) => self.at(Phase::ReportingFailure { tool: Tool::Cachegrind, error }),
        }
    }

    /// The session when the run of Callgrind begins.
    fn enter_callgrind(self) -> (r: Session)
        ensures
            r@ == self@.at_callgrind(),
    {
        match callgrind_output_files() {
            Ok(files) => self.at(Phase::Callgrind { files, stage: Stage::CreatingDirectory }),
            Err(error) => self.at(Phase::ReportingFailure { tool: Tool::Callgrind, error }),
        }
    }

    /// The session when the first `index` benchmarks have been measured by Cachegrind.
    fn enter_benchmark(
        self,
        index: usize,
        calibration: BenchStats,
        old_calibration: Option<BenchStats>,
        results: Vec<BenchResult>,
    ) -> (r: Session)
        ensures
            r@ == self@.at_benchmark(
                index as int,
                calibration,
                old_calibration,
                result_views(results@),
            ),
    {
        if index < self.names.len() {
            self.enter_cachegrind(
                CachegrindJob::Measuring { index, calibration, old_calibration, results },
            )
        } else {
            let done = Harness { cachegrind: Some(results), ..self };
            done.leave_cachegrind()
        }
    }

    /// The session when a run of Cachegrind has given counters.
    fn leave_cachegrind_run(self, job: CachegrindJob, fresh: BenchStats, old: Option<BenchStats>) -> (r:
        Session)
        requires
            job matches CachegrindJob::Measuring { index, .. } ==> index < self@.names.len(),
        ensures
            r@ == self@.after_cachegrind_run(job@, fresh, old),
    {
        match job {
            CachegrindJob::Calibrating => {
                let results: Vec<BenchResult> = Vec::new();
                assert(result_views(results@) == Seq::<BenchResultView>::empty());
                self.enter_benchmark(0, fresh, old, results)
            },
            CachegrindJob::Measuring { index, calibration, old_calibration, results } => {
                let old_stats = match (old, old_calibration) {
                    (Some(old), Some(old_calibration)) => Some(old.subtract(&old_calibration)),
                    _ => None,
                };
                let result = BenchResult {
                    name: self.names[index].clone(),
                    stats: fresh.subtract(&calibration),
                    old_stats,
                };
                let n: usize = self.names.len();
                assert(index < n);
                let mut extended = results;
                extended.push(result);
                assert(result_views(extended@) == result_views(results@).push(result@));
                self.enter_benchmark(index + 1, calibration, old_calibration, extended)
            },
        }
    }

    /// The session when the run of Callgrind has given counters.
    fn leave_callgrind_run(self, fresh: BenchStatsMap, old: Option<BenchStatsMap>) -> (r: Session)
        ensures
            r@ == self@.after_callgrind_run(
                fresh@,
                (match old {
                    Some(old) => Some(old@),
                    None => None,
                }),
            ),
    {
        let old_stats = match old {
            Some(old) => old,
            None => BenchStatsMap::new(),
        };
        let done = Harness {
            callgrind: Some(CallgrindResults { stats: fresh, old_stats }),
            ..self
        };
        done.show()
    }

    /// How Valgrind is started.
    fn valgrind(&self) -> (r: crate::command::CommandLine)
        ensures
            r@ == launcher(self@.config.platform, self@.config.arch, self@.allow_aslr),
    {
        valgrind(self.config.platform, self.config.arch.as_str(), self.allow_aslr)
    }
}

impl Harness {
    /// The session when it is known whether a tool can be started.
    fn leave_probe(self, tool: Tool, reply: Reply) -> (r: Session)
        ensures
            r@ == self@.after_probe(tool, reply@),
    {
        match reply {
            Reply::Exited { success, status } => if !success {
                let mut message: String = "Failed to launch valgrind (--tool=".to_owned();
                message.append(tool.name());
                message.append("): ");
                message.append(status.as_str());
                message.append(". Please ensure that valgrind is installed and on the $PATH.");
                self.at(Phase::Stopping { message })
            } else {
                match tool {
                    Tool::Cachegrind => self.enter_cachegrind(CachegrindJob::Calibrating),
                    Tool::Callgrind => self.enter_callgrind(),
                }
            },
            Reply::Failed(text) => {
                let mut message: String = "Unexpected error while launching valgrind: ".to_owned();
                message.append(text.as_str());
                self.at(Phase::Stopping { message })
            },
            _ => self.at(Phase::Probing { tool }),
        }
    }

    /// The session when a run of Cachegrind has come further.
    fn continue_cachegrind(
        self,
        job: CachegrindJob,
        files: OutputFiles,
        progress: Progress<BenchStats>,
    ) -> (r: Session)
        requires
            job matches CachegrindJob::Measuring { index, .. } ==> index < self@.names.len(),
        ensures
            r@ == self@.in_cachegrind(job@, files@, progress_view(progress)),
    {
        match progress {
            Progress::Continue(stage) => self.at(Phase::Cachegrind { job, files, stage }),
            Progress::Failed(error) => self.at(
                Phase::ReportingFailure { tool: Tool::Cachegrind, error },
            ),
            Progress::Obtained { fresh, old } => self.leave_cachegrind_run(job, fresh, old),
        }
    }

    /// The session when the run of Callgrind has come further.
    fn continue_callgrind(self, files: OutputFiles, progress: Progress<BenchStatsMap>) -> (r:
        Session)
        ensures
            r@ == self@.in_callgrind(files@, progress_view(progress)),
    {
        match progress {
            Progress::Continue(stage) => self.at(Phase::Callgrind { files, stage }),
            Progress::Failed(error) => self.at(
                Phase::ReportingFailure { tool: Tool::Callgrind, error },
            ),
            Progress::Obtained { fresh, old } => self.leave_callgrind_run(fresh, old),
        }
    }

}

impl Session {
    /// What is to be done next.
    pub fn action(&self) -> (r: Action)
        ensures
            r@ == self@.pending(),
    {
        match &self.phase {
            Phase::RunningChild { next, .. } => Action::RunBenchmark { index: *next },
            Phase::AskingAslr => Action::ReadVariable { name: "IAI_ALLOW_ASLR".to_owned() },
            Phase::AskingGrouping => Action::ReadVariable {
                name: "IAI_GROUP_BY_BENCHMARK".to_owned(),
            },
            Phase::Probing { tool } => Action::Probe { command: probe_command(*tool) },
            Phase::Cachegrind { job, files, stage } => match stage_path_action(stage, files) {
                Some(action) => action,
                None => {
                    let run = match job {
                        CachegrindJob::Calibrating => CachegrindRun::Calibration,
                        CachegrindJob::Measuring { index, .. } => CachegrindRun::Benchmark(*index),
                    };
                    Action::RunCommand {
                        command: cachegrind(
                            self.harness.valgrind(),
                            files.output.as_str(),
                            self.harness.executable.as_str(),
                            run,
                        ),
                    }
                },
            },
            Phase::Callgrind { files, stage } => match stage_path_action(stage, files) {
                Some(action) => action,
                None => Action::RunCommand {
                    command: callgrind(
                        self.harness.valgrind(),
                        files.output.as_str(),
                        self.harness.executable.as_str(),
                        self.harness.names.as_slice(),
                    ),
                },
            },
            Phase::ReportingFailure { tool, error } => {
                let mut message: String = tool.title().to_owned();
                message.append(" failed: ");
                message.append(error.message().as_str());
                Action::PrintError { message }
            },
            Phase::Showing { output } => Action::Print {
                lines: copy_texts(output.lines.as_slice()),
            },
            Phase::Stopping { message } => Action::PrintError { message: message.clone() },
            Phase::Aborted => Action::Abort,
            Phase::Finished => Action::Finish,
        }
    }

    /// Takes the reply to the pending action, and tells what is to be done next. A reply that is
    /// none to the pending action changes nothing.
    pub fn step(self, reply: Reply) -> (r: (Session, Action))
        ensures
            r.0@ == self@.next(reply@),
            r.1@ == r.0@.pending(),
    {
        let session = self.advance(reply);
        let action = session.action();
        (session, action)
    }

    /// The session after the reply to its pending action.
    fn advance(self, reply: Reply) -> (r: Session)
        ensures
            r@ == self@.next(reply@),
    {
        proof {
            use_type_invariant(&self);
        }
        let Session { harness, phase } = self;
        match phase {
            Phase::RunningChild { next, end } => match reply {
                Reply::Done => if next + 1 < end {
                    harness.at(Phase::RunningChild { next: next + 1, end })
                } else {
                    harness.at(Phase::Finished)
                },
                _ => harness.at(Phase::RunningChild { next, end }),
            },
            Phase::AskingAslr => match reply {
                Reply::Answer(set) => {
                    let asked = Harness { allow_aslr: set, ..harness };
                    if asked.config.cachegrind && asked.config.callgrind {
                        asked.at(Phase::AskingGrouping)
                    } else {
                        asked.enter_first_tool()
                    }
                },
                _ => harness.at(Phase::AskingAslr),
            },
            Phase::AskingGrouping => match reply {
                Reply::Answer(set) => {
                    let asked = Harness { group_by_benchmark: set, ..harness };
                    asked.enter_first_tool()
                },
                _ => harness.at(Phase::AskingGrouping),
            },
            Phase::Probing { tool } => harness.leave_probe(tool, reply),
            Phase::Cachegrind { job, files, stage } => {
                let progress = cachegrind_progress(stage, &files, reply);
                harness.continue_cachegrind(job, files, progress)
            },
            Phase::Callgrind { files, stage } => {
                let progress = callgrind_progress(stage, &files, reply);
                harness.continue_callgrind(files, progress)
            },
            Phase::ReportingFailure { tool, error } => match reply {
                Reply::Done => match tool {
                    Tool::Cachegrind => harness.leave_cachegrind(),
                    Tool::Callgrind => harness.show(),
                },
                _ => harness.at(Phase::ReportingFailure { tool, error }),
            },
            Phase::Showing { output } => match reply {
                Reply::Done => if output.complete {
                    harness.at(Phase::Finished)
                } else {
                    harness.at(Phase::Aborted)
                },
                _ => harness.at(Phase::Showing { output }),
            },
            Phase::Stopping { message } => match reply {
                Reply::Done => harness.at(Phase::Finished),
                _ => harness.at(Phase::Stopping { message }),
            },
            phase => harness.at(phase),
        }
    }
}

/// Begins a benchmark run in a process that was started with `args`, for the benchmarks `benches`.
/// The harness runs the profilers, which start the process again for the benchmarks themselves.
///
/// What is to be done first comes with the session; `Session::step` takes the replies.
pub fn runner(config: Config, benches: Vec<String>, args: &[String]) -> (r: (Session, Action))
    ensures
        r.0@ == first_session(config@, views(benches@), views(args@)),
        r.1@ == r.0@.pending(),
{
    let executable: String = if args.len() > 0 {
        args[0].clone()
    } else {
        String::new()
    };
    let n: usize = benches.len();
    let phase = match parse_invocation(args) {
        Ok(invocation) => match invocation.mode {
            InvocationMode::Parent => Phase::AskingAslr,
            InvocationMode::Child { benchmark_index } => if !config.cachegrind {
                Phase::Stopping {
                    message: "Indexed child mode requires the 'cachegrind' feature".to_owned(),
                }
            } else {
                run_child_benchmark(n, benchmark_index)
            },
        },
        Err(InvocationParseError::MissingBenchmarkIndex) => if !config.callgrind {
            Phase::Stopping {
                message: "Child mode requires the 'callgrind' feature".to_owned(),
            }
        } else {
            run_child_benchmarks(n)
        },
        Err(error) => Phase::Stopping { message: error.message() },
    };
    let harness = Harness {
        config,
        names: benches,
        executable,
        allow_aslr: false,
        group_by_benchmark: false,
        cachegrind: None,
        callgrind: None,
    };
    let session = harness.at(phase);
    let action = session.action();
    (session, action)
}

/// How a child begins that is to run the benchmark with the index `benchmark_index`, out of `n`.
fn run_child_benchmark(n: usize, benchmark_index: isize) -> (r: Phase)
    ensures
        phase_in_range(r, n as nat),
        r@ == (if 0 <= benchmark_index < n {
            PhaseView::RunningChild { next: benchmark_index as int, end: benchmark_index + 1 }
        } else {
            PhaseView::Finished
        }),
{
    if benchmark_index >= 0 && (benchmark_index as usize) < n {
        let index = benchmark_index as usize;
        Phase::RunningChild { next: index, end: index + 1 }
    } else {
        Phase::Finished
    }
}

/// How a child begins that is to run all of the `n` benchmarks.
fn run_child_benchmarks(n: usize) -> (r: Phase)
    ensures
        phase_in_range(r, n as nat),
        r@ == (if n > 0 {
            PhaseView::RunningChild { next: 0, end: n as int }
        } else {
            PhaseView::Finished
        }),
{
    if n > 0 {
        Phase::RunningChild { next: 0, end: n }
    } else {
        Phase::Finished
    }
}

/// What the harness was built with is modelled as it is.
pub proof fn law_config_is_modelled_as_it_is(config: Config)
    ensures
        config@.cachegrind == config.cachegrind,
        config@.callgrind == config.callgrind,
        config@.platform == config.platform,
        config@.arch == config.arch@,
{
}

} // verus!
