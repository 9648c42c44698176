//! What holds of every benchmark run, whatever the replies are.

#[allow(unused_imports)]
use crate::command::{
    cachegrind_command, cachegrind_files, callgrind_command, callgrind_files,
    law_there_are_output_files, law_tools_are_asked_for_their_version, launcher, CachegrindRun,
    CommandView, OutputFilesView,
};
#[allow(unused_imports)]
use crate::error::RunnerErrorView;
#[allow(unused_imports)]
use crate::invocation::{
    executable_of, law_child_reads_its_index, mode_of, InvocationMode, InvocationParseError,
};
#[allow(unused_imports)]
use crate::number::signed_decimal;
#[allow(unused_imports)]
use crate::parse::{cachegrind_stats, callgrind_stats, ContentsView};
#[allow(unused_imports)]
use crate::protocol::{ActionView, ReplyView};
#[allow(unused_imports)]
use crate::report::{
    grouped_by_benchmark, grouped_by_tool, single_tool, BenchResultView, CallgrindResultsView,
    OutputView,
};
#[allow(unused_imports)]
use crate::session::{
    first_phase, first_session, measured, stage_action, stage_progress, CachegrindJobView,
    ConfigView, HarnessView, PhaseView, ProgressView, SessionView, Stage,
};
#[allow(unused_imports)]
use crate::stats::CachegrindStats;
#[allow(unused_imports)]
use crate::tool::Tool;
use vstd::prelude::*;

verus! {

/// The session after some replies.
pub open spec fn after(s: SessionView, replies: Seq<ReplyView>) -> SessionView
    decreases replies.len(),
{
    if replies.len() == 0 {
        s
    } else {
        after(s, replies.drop_last()).next(replies.last())
    }
}

/// Whether each of the replies is one to the action that was pending.
pub open spec fn answered(s: SessionView, replies: Seq<ReplyView>) -> bool
    decreases replies.len(),
{
    replies.len() > 0 ==> {
        &&& answered(s, replies.drop_last())
        &&& after(s, replies.drop_last()).pending().answered_by(replies.last())
    }
}

/// A child that is started with an index runs that benchmark and nothing else.
pub proof fn law_child_runs_the_selected_benchmark(
    config: ConfigView,
    names: Seq<Seq<char>>,
    args: Seq<Seq<char>>,
    index: isize,
)
    requires
        config.cachegrind,
        mode_of(args) == Ok::<InvocationMode, InvocationParseError>(
            InvocationMode::Child { benchmark_index: index },
        ),
    ensures
        ({
            let s = first_session(config, names, args);
            if 0 <= index < names.len() {
                &&& s.pending() == (ActionView::RunBenchmark { index: index as int })
                &&& s.next(ReplyView::Done).pending() is Finish
            } else {
                s.pending() is Finish
            }
        }),
{
}

/// A child that is started without an index runs every benchmark once, in order.
pub proof fn law_child_runs_all_benchmarks(
    config: ConfigView,
    names: Seq<Seq<char>>,
    args: Seq<Seq<char>>,
    k: nat,
)
    requires
        config.callgrind,
        mode_of(args) == Err::<InvocationMode, InvocationParseError>(
            InvocationParseError::MissingBenchmarkIndex,
        ),
        k <= names.len(),
    ensures
        after(first_session(config, names, args), Seq::new(k, |i: int| ReplyView::Done)).pending()
            == (if k < names.len() {
            ActionView::RunBenchmark { index: k as int }
        } else {
            ActionView::Finish
        }),
    decreases k,
{
    let s = first_session(config, names, args);
    let replies = Seq::new(k, |i: int| ReplyView::Done);
    lemma_after_done(s, names, k);
    if k == 0 {
        assert(replies.len() == 0);
    }
}

/// Where a child without an index stands when it has run `k` benchmarks.
proof fn lemma_after_done(s: SessionView, names: Seq<Seq<char>>, k: nat)
    requires
        s.phase == (if names.len() > 0 {
            PhaseView::RunningChild { next: 0, end: names.len() as int }
        } else {
            PhaseView::Finished
        }),
        k <= names.len(),
    ensures
        after(s, Seq::new(k, |i: int| ReplyView::Done)).phase == (if k < names.len() {
            PhaseView::RunningChild { next: k as int, end: names.len() as int }
        } else {
            PhaseView::Finished
        }),
    decreases k,
{
    let replies = Seq::new(k, |i: int| ReplyView::Done);
    if k > 0 {
        let fewer = Seq::new((k - 1) as nat, |i: int| ReplyView::Done);
        assert(replies.drop_last() == fewer);
        lemma_after_done(s, names, (k - 1) as nat);
    }
}

/// The harness itself runs no benchmark: only the children that it starts do.
pub proof fn law_harness_runs_no_benchmark(
    config: ConfigView,
    names: Seq<Seq<char>>,
    args: Seq<Seq<char>>,
    replies: Seq<ReplyView>,
)
    requires
        mode_of(args) == Ok::<InvocationMode, InvocationParseError>(InvocationMode::Parent),
    ensures
        !(after(first_session(config, names, args), replies).pending() is RunBenchmark),
{
    lemma_stays_harness(first_session(config, names, args), replies);
}

/// A session that runs no benchmark itself never begins to.
proof fn lemma_stays_harness(s: SessionView, replies: Seq<ReplyView>)
    requires
        !(s.phase is RunningChild),
    ensures
        !(after(s, replies).phase is RunningChild),
    decreases replies.len(),
{
    if replies.len() > 0 {
        lemma_stays_harness(s, replies.drop_last());
    }
}

/// A child only ever runs benchmarks: it asks nothing of the world outside.
pub proof fn law_child_does_no_outside_work(
    config: ConfigView,
    names: Seq<Seq<char>>,
    args: Seq<Seq<char>>,
    replies: Seq<ReplyView>,
)
    requires
        mode_of(args) != Ok::<InvocationMode, InvocationParseError>(InvocationMode::Parent),
    ensures
        ({
            let action = after(first_session(config, names, args), replies).pending();
            action is RunBenchmark || action is PrintError || action is Finish
        }),
{
    lemma_stays_child(first_session(config, names, args), replies);
}

/// A session that is a child stays one.
proof fn lemma_stays_child(s: SessionView, replies: Seq<ReplyView>)
    requires
        s.phase is RunningChild || s.phase is Stopping || s.phase is Finished,
    ensures
        ({
            let phase = after(s, replies).phase;
            phase is RunningChild || phase is Stopping || phase is Finished
        }),
    decreases replies.len(),
{
    if replies.len() > 0 {
        lemma_stays_child(s, replies.drop_last());
    }
}

/// Where a tool cannot be started, that is said and the run ends: nothing is run, and nothing is
/// shown.
pub proof fn law_failed_probe_ends_the_run(s: SessionView, reply: ReplyView)
    requires
        s.phase is Probing,
        s.pending().answered_by(reply),
        reply matches ReplyView::Exited { success, .. } ==> !success,
    ensures
        s.next(reply).pending() is PrintError,
        s.next(reply).next(ReplyView::Done).pending() is Finish,
{
}

/// Where Cachegrind fails, Callgrind still has its turn.
pub proof fn law_failed_cachegrind_does_not_stop_callgrind(s: SessionView, error: RunnerErrorView)
    requires
        s.harness.config.callgrind,
        s.phase == (PhaseView::ReportingFailure { tool: Tool::Cachegrind, error }),
    ensures
        s.next(ReplyView::Done).phase == (PhaseView::Probing { tool: Tool::Callgrind }),
{
}

/// Every profiler is told to simulate the caches.
pub proof fn law_caches_are_simulated(s: SessionView)
    ensures
        s.pending() matches ActionView::RunCommand { command } ==> command.args.contains(
            "--cache-sim=yes"@,
        ),
{
    let harness = s.harness;
    let launch = launcher(harness.config.platform, harness.config.arch, harness.allow_aslr);
    if let PhaseView::Cachegrind { job, files, stage } = s.phase {
        let args = cachegrind_command(
            launch,
            files.output,
            harness.executable,
            job.run(),
        ).args;
        assert(args[launch.args.len() as int + 1] == "--cache-sim=yes"@);
    }
    if let PhaseView::Callgrind { files, stage } = s.phase {
        let args = callgrind_command(
            launch,
            files.output,
            harness.executable,
            harness.names,
        ).args;
        assert(args[launch.args.len() as int + 1] == "--cache-sim=yes"@);
    }
}

/// The process that Cachegrind is told to start runs the benchmark that is being measured, and
/// none in the calibration run.
pub proof fn law_cachegrind_child_runs_what_is_measured(s: SessionView)
    requires
        s.phase matches PhaseView::Cachegrind { job, stage: Stage::Running, .. } && {
            job matches CachegrindJobView::Measuring { index, .. } ==> 0 <= index
                < s.harness.names.len() && index <= isize::MAX
        },
        s.harness.config.cachegrind,
    ensures
        ({
            let args = s.pending()->RunCommand_command.args;
            let child = args.skip(args.len() - 3);
            &&& s.pending() is RunCommand
            &&& executable_of(child) == s.harness.executable
            &&& first_phase(s.harness.config, s.harness.names, child) == (match s.phase {
                PhaseView::Cachegrind {
                    job: CachegrindJobView::Measuring { index, .. },
                    ..
                } => PhaseView::RunningChild { next: index, end: index + 1 },
                _ => PhaseView::Finished,
            })
        }),
{
    let index = match s.phase {
        PhaseView::Cachegrind { job: CachegrindJobView::Measuring { index, .. }, .. } => index,
        _ => -1,
    };
    let args = s.pending()->RunCommand_command.args;
    let child = args.skip(args.len() - 3);
    assert(child == seq![s.harness.executable, "--iai-run"@, signed_decimal(index)]);
    assert(child == seq![s.harness.executable, "--iai-run"@, signed_decimal(index)]
        + Seq::empty());
    law_child_reads_its_index(s.harness.executable, index as isize, Seq::empty());
}

/// The process that Callgrind is told to start runs all benchmarks.
pub proof fn law_callgrind_child_runs_all_benchmarks(s: SessionView)
    requires
        s.phase matches PhaseView::Callgrind { stage: Stage::Running, .. },
        s.harness.config.callgrind,
    ensures
        ({
            let args = s.pending()->RunCommand_command.args;
            let child = args.skip(args.len() - 2);
            &&& s.pending() is RunCommand
            &&& executable_of(child) == s.harness.executable
            &&& first_phase(s.harness.config, s.harness.names, child) == (
            if s.harness.names.len() > 0 {
                PhaseView::RunningChild { next: 0, end: s.harness.names.len() as int }
            } else {
                PhaseView::Finished
            })
        }),
{
    let args = s.pending()->RunCommand_command.args;
    let child = args.skip(args.len() - 2);
    assert(child == seq![s.harness.executable, "--iai-run"@]);
}

/// How many actions of a profiling run are left at most, the pending one included.
pub open spec fn stage_rank<T>(stage: Stage<T>) -> nat {
    match stage {
        Stage::CreatingDirectory => 7,
        Stage::CheckingOutput => 6,
        Stage::SavingOutput => 5,
        Stage::Running => 4,
        Stage::Reading => 3,
        Stage::CheckingOld { .. } => 2,
        Stage::ReadingOld { .. } => 1,
    }
}

/// How many runs of Cachegrind come after the one that a job is at.
pub open spec fn runs_after(job: CachegrindJobView, benchmarks: nat) -> nat {
    match job {
        CachegrindJobView::Calibrating => benchmarks,
        CachegrindJobView::Measuring { index, .. } => if index < benchmarks {
            (benchmarks - index - 1) as nat
        } else {
            0
        },
    }
}

/// How many replies a session can take at most.
pub open spec fn rank(s: SessionView) -> nat {
    let n = s.harness.names.len();
    match s.phase {
        PhaseView::AskingAslr => 21 + 7 * n,
        PhaseView::AskingGrouping => 20 + 7 * n,
        PhaseView::Probing { tool: Tool::Cachegrind } => 19 + 7 * n,
        PhaseView::Cachegrind { job, stage, .. } => 11 + stage_rank(stage) + 7 * runs_after(job, n),
        PhaseView::ReportingFailure { tool: Tool::Cachegrind, .. } => 11,
        PhaseView::Probing { tool: Tool::Callgrind } => 10,
        PhaseView::Callgrind { stage, .. } => 2 + stage_rank(stage),
        PhaseView::ReportingFailure { tool: Tool::Callgrind, .. } => 2,
        PhaseView::RunningChild { next, end } => if next < end {
            (end - next) as nat
        } else {
            1
        },
        PhaseView::Showing { .. } | PhaseView::Stopping { .. } => 1,
        PhaseView::Aborted | PhaseView::Finished => 0,
    }
}

/// A reply to the pending action brings the session closer to its end.
pub proof fn law_replies_lead_to_the_end(s: SessionView, reply: ReplyView)
    requires
        s.pending().answered_by(reply),
    ensures
        rank(s.next(reply)) < rank(s),
{
    let harness = s.harness;
    lemma_rank_of_transitions(harness);
    match s.phase {
        PhaseView::Cachegrind { job, files, stage } => {
            let launch = launcher(harness.config.platform, harness.config.arch, harness.allow_aslr);
            let command = cachegrind_command(launch, files.output, harness.executable, job.run());
            let read = |contents: ContentsView, path: Seq<char>| cachegrind_stats(contents, path);
            lemma_stage_advances(stage, files, command, reply, read);
            match stage_progress(stage, files, reply, read) {
                ProgressView::Obtained { fresh, old } => {
                    lemma_rank_after_run(harness, job, fresh, old);
                },
                _ => {},
            }
        },
        PhaseView::Callgrind { files, stage } => {
            let launch = launcher(harness.config.platform, harness.config.arch, harness.allow_aslr);
            let command = callgrind_command(
                launch,
                files.output,
                harness.executable,
                harness.names,
            );
            let read = |contents: ContentsView, path: Seq<char>| callgrind_stats(contents, path);
            lemma_stage_advances(stage, files, command, reply, read);
        },
        PhaseView::AskingAslr => {
            lemma_rank_of_transitions(
                HarnessView { allow_aslr: reply->Answer_0, ..harness },
            );
        },
        PhaseView::AskingGrouping => {
            lemma_rank_of_transitions(
                HarnessView { group_by_benchmark: reply->Answer_0, ..harness },
            );
        },
        _ => {},
    }
}

/// A reply takes a profiling run to a later stage: the profiler is run once on the way, and what it
/// gave is read after that.
proof fn lemma_stage_advances<T>(
    stage: Stage<T>,
    files: OutputFilesView,
    command: CommandView,
    reply: ReplyView,
    read: spec_fn(ContentsView, Seq<char>) -> Result<T, RunnerErrorView>,
)
    requires
        stage_action(stage, files, command).answered_by(reply),
    ensures
        match stage_progress(stage, files, reply, read) {
            ProgressView::Continue(later) => {
                &&& stage_rank(later) < stage_rank(stage)
                &&& stage_rank(stage) > 4 ==> stage_rank(later) >= 4
            },
            ProgressView::Obtained { .. } => stage_rank(stage) <= 2,
            ProgressView::Failed(_) => true,
        },
        stage_action(stage, files, command) is RunCommand <==> stage_rank(stage) == 4,
{
}

/// How close to their ends the sessions are that begin something.
proof fn lemma_rank_of_transitions(harness: HarnessView)
    ensures
        rank(harness.showing()) == 1,
        rank(harness.after_cachegrind()) <= 10,
        rank(harness.at_first_tool()) <= 19 + 7 * harness.names.len(),
        rank(harness.at_callgrind()) <= 9,
        rank(harness.at_cachegrind(CachegrindJobView::Calibrating)) <= 18 + 7 * harness.names.len(),
{
}

/// How close to its end a session is when a run of Cachegrind is over.
proof fn lemma_rank_after_run(
    harness: HarnessView,
    job: CachegrindJobView,
    fresh: CachegrindStats,
    old: Option<CachegrindStats>,
)
    ensures
        rank(harness.after_cachegrind_run(job, fresh, old)) <= 11 + 7 * runs_after(
            job,
            harness.names.len(),
        ),
{
    let results = match job {
        CachegrindJobView::Calibrating => Seq::empty(),
        CachegrindJobView::Measuring { index, calibration, old_calibration, results } => {
            results.push(measured(harness.names[index], fresh, old, calibration, old_calibration))
        },
    };
    lemma_rank_of_transitions(HarnessView { cachegrind: Some(results), ..harness });
}

/// A benchmark run ends: where as many replies were given as the number of benchmarks allows,
/// nothing is pending any more.
pub proof fn law_every_run_ends(
    config: ConfigView,
    names: Seq<Seq<char>>,
    args: Seq<Seq<char>>,
    replies: Seq<ReplyView>,
)
    requires
        answered(first_session(config, names, args), replies),
    ensures
        replies.len() <= 21 + 7 * names.len(),
        replies.len() == 21 + 7 * names.len() ==> after(
            first_session(config, names, args),
            replies,
        ).pending().is_last(),
{
    let s = first_session(config, names, args);
    lemma_replies_use_up_rank(s, replies);
    assert(rank(s) <= 21 + 7 * names.len());
}

/// Each reply lowers the rank.
proof fn lemma_replies_use_up_rank(s: SessionView, replies: Seq<ReplyView>)
    requires
        answered(s, replies),
    ensures
        rank(after(s, replies)) + replies.len() <= rank(s),
    decreases replies.len(),
{
    if replies.len() > 0 {
        lemma_replies_use_up_rank(s, replies.drop_last());
        law_replies_lead_to_the_end(after(s, replies.drop_last()), replies.last());
    }
}

/// Whether `reply` is one to the pending action, and does not make a tool fail.
pub open spec fn succeeds(s: SessionView, reply: ReplyView) -> bool {
    &&& s.pending().answered_by(reply)
    &&& !(s.next(reply).phase is Stopping)
    &&& !(s.next(reply).phase is ReportingFailure)
}

/// Whether no reply makes a tool fail.
pub open spec fn all_succeed(s: SessionView, replies: Seq<ReplyView>) -> bool
    decreases replies.len(),
{
    replies.len() > 0 ==> {
        &&& all_succeed(s, replies.drop_last())
        &&& succeeds(after(s, replies.drop_last()), replies.last())
    }
}

/// How many profilers were run while the replies were given.
pub open spec fn profilers_run(s: SessionView, replies: Seq<ReplyView>) -> nat
    decreases replies.len(),
{
    if replies.len() == 0 {
        0
    } else {
        profilers_run(s, replies.drop_last()) + if after(
            s,
            replies.drop_last(),
        ).pending() is RunCommand {
            1nat
        } else {
            0
        }
    }
}

/// How many runs of profilers there are in a run without failures: one for the calibration and one
/// for each benchmark under Cachegrind, and one for all benchmarks under Callgrind.
pub open spec fn profilers_needed(config: ConfigView, benchmarks: nat) -> nat {
    (if config.cachegrind {
        benchmarks + 1
    } else {
        0
    }) + (if config.callgrind {
        1nat
    } else {
        0
    })
}

/// How many profilers are still to be run where nothing fails.
pub open spec fn profilers_ahead(s: SessionView) -> nat {
    let n = s.harness.names.len();
    let callgrind = if s.harness.config.callgrind {
        1nat
    } else {
        0
    };
    match s.phase {
        PhaseView::AskingAslr | PhaseView::AskingGrouping => profilers_needed(s.harness.config, n),
        PhaseView::Probing { tool: Tool::Cachegrind } => n + 1 + callgrind,
        PhaseView::Cachegrind { job, stage, .. } => runs_after(job, n) + callgrind + if stage_rank(
            stage,
        ) >= 4 {
            1nat
        } else {
            0
        },
        PhaseView::ReportingFailure { tool: Tool::Cachegrind, .. } => callgrind,
        PhaseView::Probing { tool: Tool::Callgrind } => 1,
        PhaseView::Callgrind { stage, .. } => if stage_rank(stage) >= 4 {
            1
        } else {
            0
        },
        _ => 0,
    }
}

/// In a run of the harness in which nothing fails, Cachegrind is run once for the calibration and
/// once for each benchmark, and Callgrind is run once.
pub proof fn law_number_of_profilers(
    config: ConfigView,
    names: Seq<Seq<char>>,
    args: Seq<Seq<char>>,
    replies: Seq<ReplyView>,
)
    requires
        mode_of(args) == Ok::<InvocationMode, InvocationParseError>(InvocationMode::Parent),
        all_succeed(first_session(config, names, args), replies),
        after(first_session(config, names, args), replies).pending().is_last(),
    ensures
        profilers_run(first_session(config, names, args), replies) == profilers_needed(
            config,
            names.len(),
        ),
{
    let s = first_session(config, names, args);
    lemma_profilers_ahead(s, replies);
    lemma_nothing_ahead_at_the_end(after(s, replies));
    assert(profilers_ahead(s) == profilers_needed(config, names.len()));
}

/// At the end nothing is still to be run.
proof fn lemma_nothing_ahead_at_the_end(s: SessionView)
    requires
        s.pending().is_last(),
    ensures
        s.phase is Finished || s.phase is Aborted,
        profilers_ahead(s) == 0,
{
}

/// What was run and what is still to be run add up.
proof fn lemma_profilers_ahead(s: SessionView, replies: Seq<ReplyView>)
    requires
        all_succeed(s, replies),
    ensures
        profilers_run(s, replies) + profilers_ahead(after(s, replies)) == profilers_ahead(s),
        after(s, replies).harness.names == s.harness.names,
    decreases replies.len(),
{
    if replies.len() > 0 {
        let before = after(s, replies.drop_last());
        lemma_profilers_ahead(s, replies.drop_last());
        lemma_profilers_step(before, replies.last());
    }
}

/// A reply that makes nothing fail uses up the profiler that was run, if any.
proof fn lemma_profilers_step(s: SessionView, reply: ReplyView)
    requires
        succeeds(s, reply),
    ensures
        profilers_ahead(s.next(reply)) + (if s.pending() is RunCommand {
            1nat
        } else {
            0
        }) == profilers_ahead(s),
        s.next(reply).harness.names == s.harness.names,
{
    let harness = s.harness;
    lemma_profilers_of_transitions(harness);
    match s.phase {
        PhaseView::Cachegrind { job, files, stage } => {
            let launch = launcher(harness.config.platform, harness.config.arch, harness.allow_aslr);
            let command = cachegrind_command(launch, files.output, harness.executable, job.run());
            let read = |contents: ContentsView, path: Seq<char>| cachegrind_stats(contents, path);
            lemma_stage_advances(stage, files, command, reply, read);
            match stage_progress(stage, files, reply, read) {
                ProgressView::Obtained { fresh, old } => {
                    lemma_profilers_after_run(harness, job, fresh, old);
                },
                _ => {},
            }
        },
        PhaseView::Callgrind { files, stage } => {
            let launch = launcher(harness.config.platform, harness.config.arch, harness.allow_aslr);
            let command = callgrind_command(
                launch,
                files.output,
                harness.executable,
                harness.names,
            );
            let read = |contents: ContentsView, path: Seq<char>| callgrind_stats(contents, path);
            lemma_stage_advances(stage, files, command, reply, read);
        },
        PhaseView::AskingAslr => {
            lemma_profilers_of_transitions(
                HarnessView { allow_aslr: reply->Answer_0, ..harness },
            );
        },
        PhaseView::AskingGrouping => {
            lemma_profilers_of_transitions(
                HarnessView { group_by_benchmark: reply->Answer_0, ..harness },
            );
        },
        _ => {},
    }
}

/// How many profilers are still to be run in sessions that begin something.
proof fn lemma_profilers_of_transitions(harness: HarnessView)
    ensures
        profilers_ahead(harness.showing()) == 0,
        profilers_ahead(harness.after_cachegrind()) == (if harness.config.callgrind {
            1nat
        } else {
            0
        }),
        profilers_ahead(harness.at_first_tool()) == profilers_needed(
            harness.config,
            harness.names.len(),
        ),
        harness.showing().harness == harness,
        harness.after_cachegrind().harness == harness,
        harness.at_first_tool().harness == harness,
{
}

/// How many profilers are still to be run when a run of Cachegrind is over.
proof fn lemma_profilers_after_run(
    harness: HarnessView,
    job: CachegrindJobView,
    fresh: CachegrindStats,
    old: Option<CachegrindStats>,
)
    ensures
        ({
            let s = harness.after_cachegrind_run(job, fresh, old);
            &&& s.harness.names == harness.names
            &&& s.phase is ReportingFailure || profilers_ahead(s) == runs_after(
                job,
                harness.names.len(),
            ) + if harness.config.callgrind {
                1nat
            } else {
                0
            }
        }),
{
    let results = match job {
        CachegrindJobView::Calibrating => Seq::empty(),
        CachegrindJobView::Measuring { index, calibration, old_calibration, results } => {
            results.push(measured(harness.names[index], fresh, old, calibration, old_calibration))
        },
    };
    lemma_profilers_of_transitions(HarnessView { cachegrind: Some(results), ..harness });
}

/// Whether the results of Cachegrind are those of the first benchmarks, in their order: of those
/// that were measured so far, and of all of them once Cachegrind is done.
pub open spec fn results_in_order(s: SessionView) -> bool {
    &&& s.phase matches PhaseView::Cachegrind {
        job: CachegrindJobView::Measuring { index, results, .. },
        ..
    } ==> {
        &&& 0 <= index < s.harness.names.len()
        &&& results.map_values(|result: BenchResultView| result.name) == s.harness.names.take(index)
    }
    &&& s.harness.cachegrind matches Some(results) ==> results.map_values(
        |result: BenchResultView| result.name,
    ) == s.harness.names
}

/// Cachegrind gives one result for each benchmark, in the order of the benchmarks.
pub proof fn law_results_are_in_order(
    config: ConfigView,
    names: Seq<Seq<char>>,
    args: Seq<Seq<char>>,
    replies: Seq<ReplyView>,
)
    ensures
        results_in_order(after(first_session(config, names, args), replies)),
    decreases replies.len(),
{
    if replies.len() > 0 {
        law_results_are_in_order(config, names, args, replies.drop_last());
        lemma_order_is_kept(
            after(first_session(config, names, args), replies.drop_last()),
            replies.last(),
        );
    }
}

/// A reply keeps the results in order.
proof fn lemma_order_is_kept(s: SessionView, reply: ReplyView)
    requires
        results_in_order(s),
    ensures
        results_in_order(s.next(reply)),
{
    if let PhaseView::Cachegrind { job, files, stage } = s.phase {
        let read = |contents: ContentsView, path: Seq<char>| cachegrind_stats(contents, path);
        if let ProgressView::Obtained { fresh, old } = stage_progress(stage, files, reply, read) {
            lemma_order_after_run(s.harness, job, fresh, old);
        }
    }
}

/// The result of one more benchmark comes after those before it.
proof fn lemma_order_after_run(
    harness: HarnessView,
    job: CachegrindJobView,
    fresh: CachegrindStats,
    old: Option<CachegrindStats>,
)
    requires
        job matches CachegrindJobView::Measuring { index, results, .. } ==> {
            &&& 0 <= index < harness.names.len()
            &&& results.map_values(|result: BenchResultView| result.name) == harness.names.take(
                index,
            )
        },
        harness.cachegrind matches Some(results) ==> results.map_values(
            |result: BenchResultView| result.name,
        ) == harness.names,
    ensures
        results_in_order(harness.after_cachegrind_run(job, fresh, old)),
{
    let names = harness.names;
    let name_of = |result: BenchResultView| result.name;
    match job {
        CachegrindJobView::Calibrating => {
            assert(Seq::<BenchResultView>::empty().map_values(name_of) == names.take(0));
            assert(names.len() == 0 ==> names.take(0) == names);
        },
        CachegrindJobView::Measuring { index, calibration, old_calibration, results } => {
            let result = measured(names[index], fresh, old, calibration, old_calibration);
            assert(results.push(result).map_values(name_of) == results.map_values(name_of).push(
                names[index],
            ));
            assert(names.take(index).push(names[index]) == names.take(index + 1));
            assert(index + 1 == names.len() ==> names.take(index + 1) == names);
        },
    }
}

/// What a session was started with does not change, whatever the replies are.
pub proof fn law_session_keeps_what_it_was_given(s: SessionView, replies: Seq<ReplyView>)
    ensures
        after(s, replies).harness.config == s.harness.config,
        after(s, replies).harness.names == s.harness.names,
        after(s, replies).harness.executable == s.harness.executable,
    decreases replies.len(),
{
    if replies.len() > 0 {
        law_session_keeps_what_it_was_given(s, replies.drop_last());
        lemma_reply_keeps_what_was_given(after(s, replies.drop_last()), replies.last());
    }
}

/// A reply does not change what the session was started with.
proof fn lemma_reply_keeps_what_was_given(s: SessionView, reply: ReplyView)
    ensures
        s.next(reply).harness.config == s.harness.config,
        s.next(reply).harness.names == s.harness.names,
        s.next(reply).harness.executable == s.harness.executable,
{
}

/// The files of the profiling run that a session is at.
pub open spec fn files_in_use(s: SessionView) -> Option<OutputFilesView> {
    match s.phase {
        PhaseView::Cachegrind { files, .. } => Some(files),
        PhaseView::Callgrind { files, .. } => Some(files),
        _ => None,
    }
}

/// No earlier output is lost: a profiler is started where there is no output file yet, or when it
/// has been copied to where the output of the run before is kept.
pub proof fn law_earlier_output_is_put_aside(s: SessionView, reply: ReplyView)
    requires
        !(s.pending() is RunCommand),
        s.next(reply).pending() is RunCommand,
    ensures
        files_in_use(s) matches Some(files) && {
            ||| s.pending() == (ActionView::FileExists { path: files.output }) && reply
                == ReplyView::Answer(false)
            ||| s.pending() == (ActionView::CopyFile { from: files.output, to: files.old_output })
                && reply is Done
        },
{
}

/// Where no tool is in use, nothing is run and nothing is shown.
pub proof fn law_without_tools_nothing_is_shown(harness: HarnessView, set: bool)
    requires
        !harness.config.cachegrind,
        !harness.config.callgrind,
        !harness.group_by_benchmark,
        harness.cachegrind is None,
        harness.callgrind is None,
    ensures
        ({
            let s = harness.at(PhaseView::AskingAslr).next(ReplyView::Answer(set));
            &&& s.pending() == (ActionView::Print { lines: Seq::empty() })
            &&& s.next(ReplyView::Done).pending() is Finish
        }),
{
    reveal(HarnessView::output);
}

/// A process begins with what it was given and with nothing else known. As the harness it first asks
/// whether addresses may be randomised; as a child that it was not built for, or with an index that
/// is none, it says so and ends.
pub proof fn law_process_begins_as_it_was_started(
    config: ConfigView,
    names: Seq<Seq<char>>,
    args: Seq<Seq<char>>,
)
    ensures
        ({
            let s = first_session(config, names, args);
            let h = s.harness;
            let says = |message: Seq<char>|
                s.pending() == (ActionView::PrintError { message }) && s.next(
                    ReplyView::Done,
                ).pending() is Finish;
            &&& h.config == config && h.names == names
            &&& h.executable == (if args.len() > 0 {
                args[0]
            } else {
                Seq::empty()
            })
            &&& !h.allow_aslr && !h.group_by_benchmark && h.cachegrind is None && h.callgrind is None
            &&& match mode_of(args) {
                Ok(InvocationMode::Parent) => s.pending() == (ActionView::ReadVariable {
                    name: "IAI_ALLOW_ASLR"@,
                }),
                Ok(InvocationMode::Child { .. }) => config.cachegrind || says(
                    "Indexed child mode requires the 'cachegrind' feature"@,
                ),
                Err(InvocationParseError::MissingBenchmarkIndex) => config.callgrind || says(
                    "Child mode requires the 'callgrind' feature"@,
                ),
                Err(InvocationParseError::InvalidBenchmarkIndex(e)) => says(
                    "Invalid --iai-run invocation: benchmark index is invalid ("@ + e.text()
                        + ")"@,
                ),
            }
        }),
{
}

/// The environment decides whether addresses may be randomised and, where both tools are in use, how
/// the reports are grouped. After that the tools have their turn: Cachegrind first, where it is in
/// use, then Callgrind; each is probed first.
pub proof fn law_environment_is_asked_before_the_tools(harness: HarnessView, set: bool)
    ensures
        ({
            let asked = harness.at(PhaseView::AskingAslr).next(ReplyView::Answer(set));
            let grouped = harness.at(PhaseView::AskingGrouping).next(ReplyView::Answer(set));
            let config = harness.config;
            let probes = |s: SessionView, option: Seq<char>|
                s.pending() == (ActionView::Probe {
                    command: CommandView {
                        program: "valgrind"@,
                        args: seq![option, "--version"@],
                    },
                });
            &&& asked.harness == HarnessView { allow_aslr: set, ..harness }
            &&& grouped.harness == HarnessView { group_by_benchmark: set, ..harness }
            &&& config.cachegrind && config.callgrind ==> asked.pending() == (
            ActionView::ReadVariable { name: "IAI_GROUP_BY_BENCHMARK"@ })
            &&& config.cachegrind && !config.callgrind ==> probes(asked, "--tool=cachegrind"@)
            &&& !config.cachegrind && config.callgrind ==> probes(asked, "--tool=callgrind"@)
            &&& config.cachegrind ==> probes(grouped, "--tool=cachegrind"@)
        }),
{
    law_tools_are_asked_for_their_version();
}

/// A tool that answers has its turn: Cachegrind begins with the calibration, and Callgrind with its
/// only run. A tool that does not is complained of, and nothing more is done.
pub proof fn law_probe_decides_whether_a_tool_is_run(
    harness: HarnessView,
    status: Seq<char>,
    text: Seq<char>,
)
    ensures
        ({
            let cachegrind = harness.at(PhaseView::Probing { tool: Tool::Cachegrind });
            let callgrind = harness.at(PhaseView::Probing { tool: Tool::Callgrind });
            let works = ReplyView::Exited { success: true, status };
            let fails = ReplyView::Exited { success: false, status };
            let hint = ". Please ensure that valgrind is installed and on the $PATH."@;
            let said = |s: SessionView| s.pending()->PrintError_message;
            &&& cachegrind.next(works) == harness.at(
                PhaseView::Cachegrind {
                    job: CachegrindJobView::Calibrating,
                    files: cachegrind_files("iai_calibration"@)->Ok_0,
                    stage: Stage::CreatingDirectory,
                },
            )
            &&& callgrind.next(works) == harness.at(
                PhaseView::Callgrind {
                    files: callgrind_files()->Ok_0,
                    stage: Stage::CreatingDirectory,
                },
            )
            &&& cachegrind.next(fails).pending() is PrintError
            &&& said(cachegrind.next(fails)) == "Failed to launch valgrind (--tool="@
                + "cachegrind"@ + "): "@ + status + hint
            &&& callgrind.next(fails).pending() is PrintError
            &&& said(callgrind.next(fails)) == "Failed to launch valgrind (--tool="@
                + "callgrind"@ + "): "@ + status + hint
            &&& forall|tool: Tool| #[trigger]
                harness.at(PhaseView::Probing { tool }).next(ReplyView::Failed(text)).pending() == (
                ActionView::PrintError {
                    message: "Unexpected error while launching valgrind: "@ + text,
                })
        }),
{
    law_there_are_output_files("iai_calibration"@);
}

/// What is done in a profiling run, and in which order: the directory is created, the output of an
/// earlier run is looked for and put aside, the profiler is run, its output is read, and the output
/// that was put aside is looked for and read.
pub proof fn law_profiling_run_takes_its_steps<T>(
    files: OutputFilesView,
    command: CommandView,
    read: spec_fn(ContentsView, Seq<char>) -> Result<T, RunnerErrorView>,
    fresh: T,
    contents: ContentsView,
    status: Seq<char>,
)
    ensures
        ({
            let action = |stage: Stage<T>| stage_action(stage, files, command);
            let then = |stage: Stage<T>, reply: ReplyView| stage_progress(stage, files, reply, read);
            let to = |stage: Stage<T>| ProgressView::Continue(stage);
            let works = ReplyView::Exited { success: true, status };
            &&& action(Stage::CreatingDirectory) == (ActionView::CreateDirectory {
                path: files.directory,
            })
            &&& action(Stage::CheckingOutput) == (ActionView::FileExists { path: files.output })
            &&& action(Stage::SavingOutput) == (ActionView::CopyFile {
                from: files.output,
                to: files.old_output,
            })
            &&& action(Stage::Running) == (ActionView::RunCommand { command })
            &&& action(Stage::Reading) == (ActionView::ReadFile { path: files.output })
            &&& action(Stage::CheckingOld { fresh }) == (ActionView::FileExists {
                path: files.old_output,
            })
            &&& action(Stage::ReadingOld { fresh }) == (ActionView::ReadFile {
                path: files.old_output,
            })
            &&& then(Stage::CreatingDirectory, ReplyView::Done) == to(Stage::CheckingOutput)
            &&& then(Stage::CheckingOutput, ReplyView::Answer(true)) == to(Stage::SavingOutput)
            &&& then(Stage::CheckingOutput, ReplyView::Answer(false)) == to(Stage::Running)
            &&& then(Stage::SavingOutput, ReplyView::Done) == to(Stage::Running)
            &&& then(Stage::Running, works) == to(Stage::Reading)
            &&& then(Stage::CheckingOld { fresh }, ReplyView::Answer(true)) == to(
                Stage::ReadingOld { fresh },
            )
            &&& then(Stage::CheckingOld { fresh }, ReplyView::Answer(false)) == (
            ProgressView::Obtained { fresh, old: None })
            &&& match read(contents, files.output) {
                Ok(counted) => then(Stage::Reading, ReplyView::Contents(contents)) == to(
                    Stage::CheckingOld { fresh: counted },
                ),
                Err(error) => then(Stage::Reading, ReplyView::Contents(contents))
                    == ProgressView::<T>::Failed(error),
            }
            &&& match read(contents, files.old_output) {
                Ok(counted) => then(Stage::ReadingOld { fresh }, ReplyView::Contents(contents)) == (
                ProgressView::Obtained { fresh, old: Some(counted) }),
                Err(error) => then(Stage::ReadingOld { fresh }, ReplyView::Contents(contents))
                    == ProgressView::<T>::Failed(error),
            }
        }),
{
}

/// A profiling run fails where one of its actions fails, and where the profiler ends without success.
pub proof fn law_profiling_run_fails_with_its_actions<T>(
    stage: Stage<T>,
    files: OutputFilesView,
    command: CommandView,
    read: spec_fn(ContentsView, Seq<char>) -> Result<T, RunnerErrorView>,
    text: Seq<char>,
)
    ensures
        stage_action(stage, files, command).answered_by(ReplyView::Failed(text)) ==> stage_progress(
            stage,
            files,
            ReplyView::Failed(text),
            read,
        ) == ProgressView::<T>::Failed(RunnerErrorView::Io(text)),
        stage is Running ==> stage_progress(
            stage,
            files,
            ReplyView::Exited { success: false, status: text },
            read,
        ) == ProgressView::<T>::Failed(RunnerErrorView::CommandFailed(text)),
        stage is CreatingDirectory || stage is SavingOutput || stage is Running || stage is Reading
            || stage is ReadingOld ==> stage_action(stage, files, command).answered_by(
            ReplyView::Failed(text),
        ),
{
}

/// In a session the profilers take those steps, with the command of the tool. A failure is said, and
/// then the session goes on without the results of that tool: to Callgrind after Cachegrind, where
/// that is in use, and else to what there is to show.
pub proof fn law_session_takes_the_steps_of_its_tool(
    harness: HarnessView,
    job: CachegrindJobView,
    files: OutputFilesView,
    stage: Stage<CachegrindStats>,
    other: Stage<Map<Seq<char>, CachegrindStats>>,
    reply: ReplyView,
)
    ensures
        ({
            let launch = launcher(harness.config.platform, harness.config.arch, harness.allow_aslr);
            let cachegrind = harness.at(PhaseView::Cachegrind { job, files, stage });
            let callgrind = harness.at(PhaseView::Callgrind { files, stage: other });
            let run = match job {
                CachegrindJobView::Calibrating => CachegrindRun::Calibration,
                CachegrindJobView::Measuring { index, .. } => CachegrindRun::Benchmark(
                    index as usize,
                ),
            };
            let read = |contents: ContentsView, path: Seq<char>| cachegrind_stats(contents, path);
            let read_other = |contents: ContentsView, path: Seq<char>|
                callgrind_stats(contents, path);
            &&& cachegrind.pending() == stage_action(
                stage,
                files,
                cachegrind_command(launch, files.output, harness.executable, run),
            )
            &&& callgrind.pending() == stage_action(
                other,
                files,
                callgrind_command(launch, files.output, harness.executable, harness.names),
            )
            &&& match stage_progress(stage, files, reply, read) {
                ProgressView::Continue(later) => cachegrind.next(reply) == harness.at(
                    PhaseView::Cachegrind { job, files, stage: later },
                ),
                ProgressView::Failed(error) => {
                    let failed = cachegrind.next(reply);
                    &&& failed.harness == harness
                    &&& failed.pending() == (ActionView::PrintError {
                        message: "Cachegrind"@ + " failed: "@ + error.text(),
                    })
                    &&& failed.next(ReplyView::Done) == (if harness.config.callgrind {
                        harness.at(PhaseView::Probing { tool: Tool::Callgrind })
                    } else {
                        harness.at(PhaseView::Showing { output: harness.output() })
                    })
                },
                ProgressView::Obtained { .. } => true,
            }
            &&& match stage_progress(other, files, reply, read_other) {
                ProgressView::Continue(later) => callgrind.next(reply) == harness.at(
                    PhaseView::Callgrind { files, stage: later },
                ),
                ProgressView::Failed(error) => {
                    let failed = callgrind.next(reply);
                    &&& failed.harness == harness
                    &&& failed.pending() == (ActionView::PrintError {
                        message: "Callgrind"@ + " failed: "@ + error.text(),
                    })
                    &&& failed.next(ReplyView::Done) == harness.at(
                        PhaseView::Showing { output: harness.output() },
                    )
                },
                ProgressView::Obtained { fresh, old } => {
                    let done = HarnessView {
                        callgrind: Some(
                            CallgrindResultsView {
                                stats: fresh,
                                old_stats: if old is Some {
                                    old->0
                                } else {
                                    Map::empty()
                                },
                            },
                        ),
                        ..harness
                    };
                    callgrind.next(reply) == done.at(PhaseView::Showing { output: done.output() })
                },
            }
        }),
{
}

/// When a run of Cachegrind has given counters, the next benchmark has its turn, with the counters of
/// the calibration, and the result is added to those before it; after the last benchmark Callgrind
/// has its turn where it is in use, and else the results are shown.
pub proof fn law_cachegrind_goes_from_benchmark_to_benchmark(
    harness: HarnessView,
    index: int,
    calibration: CachegrindStats,
    old_calibration: Option<CachegrindStats>,
    results: Seq<BenchResultView>,
    fresh: CachegrindStats,
    old: Option<CachegrindStats>,
)
    requires
        0 <= index < harness.names.len() <= usize::MAX,
    ensures
        ({
            let turn = |at: int, fixed: CachegrindStats, before: Option<CachegrindStats>, done: Seq<
                BenchResultView,
            >|
                if at < harness.names.len() {
                    harness.at(
                        PhaseView::Cachegrind {
                            job: CachegrindJobView::Measuring {
                                index: at,
                                calibration: fixed,
                                old_calibration: before,
                                results: done,
                            },
                            files: cachegrind_files(harness.names[at])->Ok_0,
                            stage: Stage::CreatingDirectory,
                        },
                    )
                } else {
                    let known = HarnessView { cachegrind: Some(done), ..harness };
                    if harness.config.callgrind {
                        known.at(PhaseView::Probing { tool: Tool::Callgrind })
                    } else {
                        known.at(PhaseView::Showing { output: known.output() })
                    }
                };
            let result = BenchResultView {
                name: harness.names[index],
                stats: fresh.less(calibration),
                old_stats: if old is Some && old_calibration is Some {
                    Some(old->0.less(old_calibration->0))
                } else {
                    None
                },
            };
            &&& harness.after_cachegrind_run(CachegrindJobView::Calibrating, fresh, old) == turn(
                0,
                fresh,
                old,
                Seq::empty(),
            )
            &&& harness.after_cachegrind_run(
                CachegrindJobView::Measuring { index, calibration, old_calibration, results },
                fresh,
                old,
            ) == turn(index + 1, calibration, old_calibration, results.push(result))
        }),
{
    law_there_are_output_files(harness.names[0]);
    if index + 1 < harness.names.len() {
        law_there_are_output_files(harness.names[index + 1]);
    }
}

/// A run of Cachegrind that has given its counters is left.
pub proof fn law_cachegrind_run_is_left_with_its_counters(
    harness: HarnessView,
    job: CachegrindJobView,
    files: OutputFilesView,
    stage: Stage<CachegrindStats>,
    reply: ReplyView,
)
    ensures
        stage_progress(
            stage,
            files,
            reply,
            |contents: ContentsView, path: Seq<char>| cachegrind_stats(contents, path),
        ) matches ProgressView::Obtained { fresh, old } ==> harness.at(
            PhaseView::Cachegrind { job, files, stage },
        ).next(reply) == harness.after_cachegrind_run(job, fresh, old),
{
}

/// The output is printed, and the harness ends after it: as usual where it is complete, and else in a
/// panic.
pub proof fn law_output_is_printed_at_last(harness: HarnessView, output: OutputView)
    ensures
        ({
            let s = harness.at(PhaseView::Showing { output });
            &&& s.pending() == (ActionView::Print { lines: output.lines })
            &&& output.complete ==> s.next(ReplyView::Done).pending() is Finish
            &&& !output.complete ==> s.next(ReplyView::Done).pending() is Abort
        }),
{
}

/// What is shown: grouped by benchmark where the environment asked for that, else grouped by tool
/// where both tools are in use, and else the results of the one tool.
pub proof fn law_settings_choose_the_grouping(harness: HarnessView)
    ensures
        ({
            let cachegrind = harness.cachegrind;
            let callgrind = harness.callgrind;
            let both = harness.config.cachegrind && harness.config.callgrind;
            &&& harness.group_by_benchmark ==> harness.output() == grouped_by_benchmark(
                harness.names,
                cachegrind,
                callgrind,
            )
            &&& !harness.group_by_benchmark && both ==> harness.output() == grouped_by_tool(
                harness.names,
                cachegrind,
                callgrind,
            )
            &&& !harness.group_by_benchmark && !both ==> harness.output() == single_tool(
                harness.names,
                cachegrind,
                callgrind,
            )
        }),
{
    reveal(HarnessView::output);
}

/// A reply to something else than the pending action changes nothing, and at the end no reply does.
pub proof fn law_other_replies_change_nothing(s: SessionView, reply: ReplyView)
    requires
        !s.pending().answered_by(reply),
    ensures
        s.next(reply) == s,
{
}

/// Which replies an action can have.
pub proof fn law_actions_have_their_replies(
    text: Seq<char>,
    lines: Seq<Seq<char>>,
    index: int,
    command: CommandView,
    reply: ReplyView,
)
    ensures
        (ActionView::RunBenchmark { index }).answered_by(reply) <==> reply is Done,
        (ActionView::PrintError { message: text }).answered_by(reply) <==> reply is Done,
        (ActionView::Print { lines }).answered_by(reply) <==> reply is Done,
        (ActionView::ReadVariable { name: text }).answered_by(reply) <==> reply is Answer,
        (ActionView::FileExists { path: text }).answered_by(reply) <==> reply is Answer,
        (ActionView::Probe { command }).answered_by(reply) <==> reply is Exited || reply is Failed,
        (ActionView::RunCommand { command }).answered_by(reply) <==> reply is Exited || reply is Failed,
        (ActionView::CreateDirectory { path: text }).answered_by(reply) <==> reply is Done
            || reply is Failed,
        (ActionView::CopyFile { from: text, to: text }).answered_by(reply) <==> reply is Done
            || reply is Failed,
        (ActionView::ReadFile { path: text }).answered_by(reply) <==> reply is Contents
            || reply is Failed,
        !ActionView::Abort.answered_by(reply),
        !ActionView::Finish.answered_by(reply),
{
}

} // verus!
