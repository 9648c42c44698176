//! What a benchmark run comes to where nothing fails.

#[allow(unused_imports)]
use crate::command::{
    cachegrind_files, callgrind_files, law_there_are_output_files, OutputFilesView,
};
#[allow(unused_imports)]
use crate::course::after;
#[allow(unused_imports)]
use crate::error::RunnerErrorView;
#[allow(unused_imports)]
use crate::invocation::{executable_of, mode_of, InvocationMode, InvocationParseError};
#[allow(unused_imports)]
use crate::parse::{cachegrind_stats, callgrind_stats, ContentsView};
#[allow(unused_imports)]
use crate::protocol::{ActionView, ReplyView};
#[allow(unused_imports)]
use crate::report::{
    all_reportable, entries, law_entries_are_results, law_results_are_shown_in_full, reports,
    BenchResultView, CallgrindResultsView, OutputView,
};
#[allow(unused_imports)]
use crate::session::{
    first_session, measured, stage_progress, CachegrindJobView, ConfigView, HarnessView, PhaseView,
    ProgressView, SessionView, Stage,
};
#[allow(unused_imports)]
use crate::stats::CachegrindStats;
#[allow(unused_imports)]
use crate::tool::Tool;
use vstd::prelude::*;

verus! {

/// What a profiling run finds and leaves behind.
pub struct RunFiles {
    /// Whether there was an output file before the run.
    pub present: bool,
    /// What the profiler wrote.
    pub fresh: ContentsView,
    /// The output of the run before, where it is kept.
    pub old: Option<ContentsView>,
}

/// How a program ends that succeeds.
pub open spec fn exit(status: Seq<char>) -> ReplyView {
    ReplyView::Exited { success: true, status }
}

/// The replies in a profiling run without failures.
pub open spec fn run_replies(run: RunFiles, status: Seq<char>) -> Seq<ReplyView> {
    seq![ReplyView::Done, ReplyView::Answer(run.present)] + (if run.present {
        seq![ReplyView::Done]
    } else {
        Seq::empty()
    }) + seq![exit(status), ReplyView::Contents(run.fresh)] + (match run.old {
        Some(old) => seq![ReplyView::Answer(true), ReplyView::Contents(old)],
        None => seq![ReplyView::Answer(false)],
    })
}

/// The replies in profiling runs without failures, one after the other.
pub open spec fn all_replies(runs: Seq<RunFiles>, status: Seq<char>) -> Seq<ReplyView>
    decreases runs.len(),
{
    if runs.len() == 0 {
        Seq::empty()
    } else {
        all_replies(runs.drop_last(), status) + run_replies(runs.last(), status)
    }
}

/// The session after a reply, as a whole.
#[verifier::opaque]
spec fn taken(s: SessionView, reply: ReplyView) -> SessionView {
    s.next(reply)
}

/// The session after some replies, with each step taken as a whole.
spec fn path(s: SessionView, replies: Seq<ReplyView>) -> SessionView
    decreases replies.len(),
{
    if replies.len() == 0 {
        s
    } else {
        taken(path(s, replies.drop_last()), replies.last())
    }
}

/// It does not matter whether steps are taken as a whole.
proof fn lemma_path_is_after(s: SessionView, replies: Seq<ReplyView>)
    ensures
        path(s, replies) == after(s, replies),
    decreases replies.len(),
{
    if replies.len() > 0 {
        lemma_path_is_after(s, replies.drop_last());
        reveal(taken);
    }
}

/// A path can be taken in two parts.
proof fn lemma_path_can_be_split(s: SessionView, first: Seq<ReplyView>, second: Seq<ReplyView>)
    ensures
        path(s, first + second) == path(path(s, first), second),
    decreases second.len(),
{
    if second.len() == 0 {
        assert(first + second == first);
    } else {
        assert((first + second).drop_last() == first + second.drop_last());
        lemma_path_can_be_split(s, first, second.drop_last());
    }
}

/// Replies can be given in two parts.
pub proof fn law_replies_can_be_split(s: SessionView, first: Seq<ReplyView>, second: Seq<ReplyView>)
    ensures
        after(s, first + second) == after(after(s, first), second),
{
    lemma_path_can_be_split(s, first, second);
    lemma_path_is_after(s, first + second);
    lemma_path_is_after(s, first);
    lemma_path_is_after(after(s, first), second);
}

/// One more reply takes a path one step further.
proof fn lemma_extend(s: SessionView, replies: Seq<ReplyView>, reply: ReplyView)
    ensures
        path(s, replies.push(reply)) == taken(path(s, replies), reply),
{
    assert(replies.push(reply).drop_last() == replies);
}

/// What the output of a run holds, where it holds counters.
pub open spec fn obtained<T>(contents: Result<T, RunnerErrorView>) -> T {
    contents->Ok_0
}

/// What a run counted, as far as `read` can tell it from its output.
pub open spec fn counted<T>(
    run: RunFiles,
    files: OutputFilesView,
    read: spec_fn(ContentsView, Seq<char>) -> Result<T, RunnerErrorView>,
) -> T {
    obtained(read(run.fresh, files.output))
}

/// What the run before had counted, where its output is kept.
pub open spec fn counted_before<T>(
    run: RunFiles,
    files: OutputFilesView,
    read: spec_fn(ContentsView, Seq<char>) -> Result<T, RunnerErrorView>,
) -> Option<T> {
    match run.old {
        Some(old) => Some(obtained(read(old, files.old_output))),
        None => None,
    }
}

/// Whether the output files of a run hold counters.
pub open spec fn readable<T>(
    run: RunFiles,
    files: OutputFilesView,
    read: spec_fn(ContentsView, Seq<char>) -> Result<T, RunnerErrorView>,
) -> bool {
    &&& read(run.fresh, files.output) is Ok
    &&& run.old matches Some(old) ==> read(old, files.old_output) is Ok
}

/// How the output of Cachegrind is read.
pub open spec fn cachegrind_reader() -> spec_fn(ContentsView, Seq<char>) -> Result<
    CachegrindStats,
    RunnerErrorView,
> {
    |contents: ContentsView, path: Seq<char>| cachegrind_stats(contents, path)
}

/// How the output of Callgrind is read.
pub open spec fn callgrind_reader() -> spec_fn(ContentsView, Seq<char>) -> Result<
    Map<Seq<char>, CachegrindStats>,
    RunnerErrorView,
> {
    |contents: ContentsView, path: Seq<char>| callgrind_stats(contents, path)
}

/// Whether the replies to a profiling run take it from place to place: `place` is the session in a
/// stage, and `done` the session when the run is over.
spec fn follows<T>(
    files: OutputFilesView,
    read: spec_fn(ContentsView, Seq<char>) -> Result<T, RunnerErrorView>,
    place: spec_fn(Stage<T>) -> SessionView,
    done: spec_fn(T, Option<T>) -> SessionView,
) -> bool {
    forall|stage: Stage<T>, reply: ReplyView|
        match #[trigger] stage_progress(stage, files, reply, read) {
            ProgressView::Continue(later) => taken(place(stage), reply) == place(later),
            ProgressView::Obtained { fresh, old } => taken(place(stage), reply) == done(
                fresh,
                old,
            ),
            ProgressView::Failed(_) => true,
        }
}

/// A profiling run without failures gives the counters of its output files.
proof fn lemma_run<T>(
    files: OutputFilesView,
    read: spec_fn(ContentsView, Seq<char>) -> Result<T, RunnerErrorView>,
    place: spec_fn(Stage<T>) -> SessionView,
    done: spec_fn(T, Option<T>) -> SessionView,
    run: RunFiles,
    status: Seq<char>,
)
    requires
        follows(files, read, place, done),
        readable(run, files, read),
    ensures
        path(place(Stage::CreatingDirectory), run_replies(run, status)) == done(
            counted(run, files, read),
            counted_before(run, files, read),
        ),
{
    let fresh = counted(run, files, read);
    let old = counted_before(run, files, read);
    let start = place(Stage::CreatingDirectory);
    let found = ReplyView::Answer(run.present);
    let contents = ReplyView::Contents(run.fresh);
    let kept = ReplyView::Answer(run.old is Some);

    let r = Seq::<ReplyView>::empty();
    let s = lemma_on(files, read, place, done, start, r, Stage::CreatingDirectory, ReplyView::Done);
    let r = r.push(ReplyView::Done);
    let s = lemma_on(files, read, place, done, start, r, s, found);
    let r = r.push(found);
    let s = if run.present {
        lemma_on(files, read, place, done, start, r, s, ReplyView::Done)
    } else {
        s
    };
    let r = if run.present {
        r.push(ReplyView::Done)
    } else {
        r
    };
    let s = lemma_on(files, read, place, done, start, r, s, exit(status));
    let r = r.push(exit(status));
    let s = lemma_on(files, read, place, done, start, r, s, contents);
    let r = r.push(contents);
    match run.old {
        Some(before) => {
            let s = lemma_on(files, read, place, done, start, r, s, kept);
            let r = r.push(kept);
            let last = ReplyView::Contents(before);
            lemma_over(files, read, place, done, start, r, s, last);
            assert(r.push(last) == run_replies(run, status));
        },
        None => {
            lemma_over(files, read, place, done, start, r, s, kept);
            assert(r.push(kept) == run_replies(run, status));
        },
    }
}

/// One more reply takes a profiling run to a later stage.
proof fn lemma_on<T>(
    files: OutputFilesView,
    read: spec_fn(ContentsView, Seq<char>) -> Result<T, RunnerErrorView>,
    place: spec_fn(Stage<T>) -> SessionView,
    done: spec_fn(T, Option<T>) -> SessionView,
    start: SessionView,
    replies: Seq<ReplyView>,
    stage: Stage<T>,
    reply: ReplyView,
) -> (later: Stage<T>)
    requires
        follows(files, read, place, done),
        path(start, replies) == place(stage),
        stage_progress(stage, files, reply, read) is Continue,
    ensures
        stage_progress(stage, files, reply, read) == ProgressView::Continue(later),
        path(start, replies.push(reply)) == place(later),
{
    let later = stage_progress(stage, files, reply, read)->Continue_0;
    lemma_extend(start, replies, reply);
    later
}

/// One more reply ends a profiling run.
proof fn lemma_over<T>(
    files: OutputFilesView,
    read: spec_fn(ContentsView, Seq<char>) -> Result<T, RunnerErrorView>,
    place: spec_fn(Stage<T>) -> SessionView,
    done: spec_fn(T, Option<T>) -> SessionView,
    start: SessionView,
    replies: Seq<ReplyView>,
    stage: Stage<T>,
    reply: ReplyView,
)
    requires
        follows(files, read, place, done),
        path(start, replies) == place(stage),
        stage_progress(stage, files, reply, read) is Obtained,
    ensures
        ({
            let progress = stage_progress(stage, files, reply, read);
            path(start, replies.push(reply)) == done(
                progress->Obtained_fresh,
                progress->Obtained_old,
            )
        }),
{
    lemma_extend(start, replies, reply);
}

/// A run of Cachegrind goes from stage to stage.
proof fn lemma_cachegrind_follows(
    harness: HarnessView,
    job: CachegrindJobView,
    files: OutputFilesView,
)
    ensures
        follows(
            files,
            cachegrind_reader(),
            |stage: Stage<CachegrindStats>|
                harness.at(PhaseView::Cachegrind { job, files, stage }),
            |fresh: CachegrindStats, old: Option<CachegrindStats>|
                harness.after_cachegrind_run(job, fresh, old),
        ),
{
    reveal(taken);
}

/// The run of Callgrind goes from stage to stage.
proof fn lemma_callgrind_follows(harness: HarnessView, files: OutputFilesView)
    ensures
        follows(
            files,
            callgrind_reader(),
            |stage: Stage<Map<Seq<char>, CachegrindStats>>|
                harness.at(PhaseView::Callgrind { files, stage }),
            |
                fresh: Map<Seq<char>, CachegrindStats>,
                old: Option<Map<Seq<char>, CachegrindStats>>,
            | harness.after_callgrind_run(fresh, old),
        ),
{
    reveal(taken);
}

/// The files of a run of Cachegrind: of the calibration, or of the benchmark before `k`.
pub open spec fn files_at(names: Seq<Seq<char>>, k: int) -> OutputFilesView {
    obtained(
        cachegrind_files(
            if k == 0 {
                "iai_calibration"@
            } else {
                names[k - 1]
            },
        ),
    )
}

/// The results of the first `n` benchmarks. The first run is the calibration; it is followed by one
/// run for each benchmark.
pub open spec fn first_results(names: Seq<Seq<char>>, runs: Seq<RunFiles>, n: nat) -> Seq<
    BenchResultView,
> {
    let read = cachegrind_reader();
    Seq::new(
        n,
        |i: int|
            measured(
                names[i],
                counted(runs[i + 1], files_at(names, i + 1), read),
                counted_before(runs[i + 1], files_at(names, i + 1), read),
                counted(runs[0], files_at(names, 0), read),
                counted_before(runs[0], files_at(names, 0), read),
            ),
    )
}

/// Whether the output files of all runs of Cachegrind hold counters.
pub open spec fn all_readable(names: Seq<Seq<char>>, runs: Seq<RunFiles>) -> bool {
    forall|k: int|
        0 <= k < runs.len() ==> readable(
            #[trigger] runs[k],
            files_at(names, k),
            cachegrind_reader(),
        )
}

/// Cachegrind measures the calibration and then benchmark after benchmark.
proof fn lemma_cachegrind_runs(
    harness: HarnessView,
    runs: Seq<RunFiles>,
    status: Seq<char>,
    n: nat,
)
    requires
        n <= harness.names.len() <= usize::MAX,
        runs.len() == n + 1,
        all_readable(harness.names, runs),
    ensures
        path(
            harness.at_cachegrind(CachegrindJobView::Calibrating),
            all_replies(runs, status),
        ) == harness.at_benchmark(
            n as int,
            counted(runs[0], files_at(harness.names, 0), cachegrind_reader()),
            counted_before(runs[0], files_at(harness.names, 0), cachegrind_reader()),
            first_results(harness.names, runs, n),
        ),
    decreases n,
{
    let names = harness.names;
    let read = cachegrind_reader();
    let start = harness.at_cachegrind(CachegrindJobView::Calibrating);
    let calibration = counted(runs[0], files_at(names, 0), read);
    let old_calibration = counted_before(runs[0], files_at(names, 0), read);
    let fewer = runs.drop_last();
    let files = files_at(names, n as int);
    law_there_are_output_files("iai_calibration"@);
    assert(readable(runs[n as int], files, read));
    let job = if n == 0 {
        CachegrindJobView::Calibrating
    } else {
        CachegrindJobView::Measuring {
            index: n - 1,
            calibration,
            old_calibration,
            results: first_results(names, fewer, (n - 1) as nat),
        }
    };
    let place = |stage: Stage<CachegrindStats>|
        harness.at(PhaseView::Cachegrind { job, files, stage });
    let done = |fresh: CachegrindStats, old: Option<CachegrindStats>|
        harness.after_cachegrind_run(job, fresh, old);
    lemma_cachegrind_follows(harness, job, files);
    lemma_run(files, read, place, done, runs[n as int], status);
    lemma_path_can_be_split(
        start,
        all_replies(fewer, status),
        run_replies(runs[n as int], status),
    );
    if n == 0 {
        assert(fewer.len() == 0);
        assert(path(start, all_replies(fewer, status)) == start);
        assert(first_results(names, runs, 0) == Seq::<BenchResultView>::empty());
    } else {
        assert(fewer[0] == runs[0]);
        assert forall|k: int| 0 <= k < fewer.len() implies readable(
            #[trigger] fewer[k],
            files_at(names, k),
            read,
        ) by {
            assert(fewer[k] == runs[k]);
        }
        lemma_cachegrind_runs(harness, fewer, status, (n - 1) as nat);
        law_there_are_output_files(names[n - 1]);
        assert(first_results(names, runs, n) == first_results(names, fewer, (n - 1) as nat).push(
            measured(
                names[n - 1],
                counted(runs[n as int], files, read),
                counted_before(runs[n as int], files, read),
                calibration,
                old_calibration,
            ),
        ));
    }
}

/// What Callgrind gives: the counters of all benchmarks, and those of the run before.
pub open spec fn callgrind_results(run: RunFiles) -> CallgrindResultsView {
    let files = obtained(callgrind_files());
    CallgrindResultsView {
        stats: counted(run, files, callgrind_reader()),
        old_stats: match counted_before(run, files, callgrind_reader()) {
            Some(old) => old,
            None => Map::empty(),
        },
    }
}

/// Cachegrind measures the calibration and every benchmark once. Each benchmark is given what was
/// counted in its run and in the run before, without what was counted in the calibrations.
pub proof fn law_cachegrind_measures_every_benchmark(
    harness: HarnessView,
    runs: Seq<RunFiles>,
    status: Seq<char>,
)
    requires
        harness.names.len() <= usize::MAX,
        runs.len() == harness.names.len() + 1,
        all_readable(harness.names, runs),
    ensures
        after(
            harness.at(PhaseView::Probing { tool: Tool::Cachegrind }),
            seq![exit(status)] + all_replies(runs, status),
        ) == (HarnessView {
            cachegrind: Some(first_results(harness.names, runs, harness.names.len())),
            ..harness
        }).after_cachegrind(),
{
    let s = harness.at(PhaseView::Probing { tool: Tool::Cachegrind });
    let replies = all_replies(runs, status);
    lemma_cachegrind_runs(harness, runs, status, harness.names.len());
    lemma_path_can_be_split(s, seq![exit(status)], replies);
    lemma_extend(s, Seq::empty(), exit(status));
    assert(Seq::empty().push(exit(status)) == seq![exit(status)]);
    assert(taken(s, exit(status)) == harness.at_cachegrind(CachegrindJobView::Calibrating)) by {
        reveal(taken);
    }
    lemma_path_is_after(s, seq![exit(status)] + replies);
}

/// Callgrind measures all benchmarks in one run.
pub proof fn law_callgrind_measures_all_benchmarks(
    harness: HarnessView,
    run: RunFiles,
    status: Seq<char>,
)
    requires
        readable(run, obtained(callgrind_files()), callgrind_reader()),
    ensures
        after(
            harness.at(PhaseView::Probing { tool: Tool::Callgrind }),
            seq![exit(status)] + run_replies(run, status),
        ) == (HarnessView { callgrind: Some(callgrind_results(run)), ..harness }).showing(),
{
    let s = harness.at(PhaseView::Probing { tool: Tool::Callgrind });
    let files = obtained(callgrind_files());
    let read = callgrind_reader();
    let place = |stage: Stage<Map<Seq<char>, CachegrindStats>>|
        harness.at(PhaseView::Callgrind { files, stage });
    let done = |
        fresh: Map<Seq<char>, CachegrindStats>,
        old: Option<Map<Seq<char>, CachegrindStats>>,
    | harness.after_callgrind_run(fresh, old);
    lemma_callgrind_follows(harness, files);
    lemma_run(files, read, place, done, run, status);
    law_there_are_output_files(Seq::empty());
    lemma_path_can_be_split(s, seq![exit(status)], run_replies(run, status));
    lemma_extend(s, Seq::empty(), exit(status));
    assert(Seq::empty().push(exit(status)) == seq![exit(status)]);
    assert(taken(s, exit(status)) == harness.at_callgrind()) by {
        reveal(taken);
    }
    lemma_path_is_after(s, seq![exit(status)] + run_replies(run, status));
}

/// The replies in a benchmark run without failures.
pub open spec fn session_replies(
    config: ConfigView,
    allow_aslr: bool,
    group_by_benchmark: bool,
    runs: Seq<RunFiles>,
    run: RunFiles,
    status: Seq<char>,
) -> Seq<ReplyView> {
    seq![ReplyView::Answer(allow_aslr)] + (if config.cachegrind && config.callgrind {
        seq![ReplyView::Answer(group_by_benchmark)]
    } else {
        Seq::empty()
    }) + (if config.cachegrind {
        seq![exit(status)] + all_replies(runs, status)
    } else {
        Seq::empty()
    }) + (if config.callgrind {
        seq![exit(status)] + run_replies(run, status)
    } else {
        Seq::empty()
    })
}

/// What is known at the end of a benchmark run without failures.
pub open spec fn final_harness(
    config: ConfigView,
    names: Seq<Seq<char>>,
    args: Seq<Seq<char>>,
    allow_aslr: bool,
    group_by_benchmark: bool,
    runs: Seq<RunFiles>,
    run: RunFiles,
) -> HarnessView {
    HarnessView {
        config,
        names,
        executable: executable_of(args),
        allow_aslr,
        group_by_benchmark: config.cachegrind && config.callgrind && group_by_benchmark,
        cachegrind: if config.cachegrind {
            Some(first_results(names, runs, names.len()))
        } else {
            None
        },
        callgrind: if config.callgrind {
            Some(callgrind_results(run))
        } else {
            None
        },
    }
}

/// A benchmark run without failures shows what the tools counted: under Cachegrind, what each
/// benchmark's own run counted without the calibration; under Callgrind, what its one run counted
/// of each benchmark.
pub proof fn law_harness_shows_what_was_counted(
    config: ConfigView,
    names: Seq<Seq<char>>,
    args: Seq<Seq<char>>,
    allow_aslr: bool,
    group_by_benchmark: bool,
    runs: Seq<RunFiles>,
    run: RunFiles,
    status: Seq<char>,
)
    requires
        mode_of(args) == Ok::<InvocationMode, InvocationParseError>(InvocationMode::Parent),
        names.len() <= usize::MAX,
        config.cachegrind ==> runs.len() == names.len() + 1 && all_readable(names, runs),
        config.callgrind ==> readable(run, obtained(callgrind_files()), callgrind_reader()),
    ensures
        after(
            first_session(config, names, args),
            session_replies(config, allow_aslr, group_by_benchmark, runs, run, status),
        ) == final_harness(
            config,
            names,
            args,
            allow_aslr,
            group_by_benchmark,
            runs,
            run,
        ).showing(),
{
    let both = config.cachegrind && config.callgrind;
    let s = first_session(config, names, args);
    let asked = HarnessView {
        allow_aslr,
        group_by_benchmark: both && group_by_benchmark,
        ..s.harness
    };
    let first = seq![ReplyView::Answer(allow_aslr)];
    let second = if both {
        seq![ReplyView::Answer(group_by_benchmark)]
    } else {
        Seq::empty()
    };
    let third = if config.cachegrind {
        seq![exit(status)] + all_replies(runs, status)
    } else {
        Seq::empty()
    };
    let fourth = if config.callgrind {
        seq![exit(status)] + run_replies(run, status)
    } else {
        Seq::empty()
    };
    lemma_answers(config, names, args, allow_aslr, group_by_benchmark);
    assert(first + second + third + fourth == session_replies(
        config,
        allow_aslr,
        group_by_benchmark,
        runs,
        run,
        status,
    ));
    law_replies_can_be_split(s, first + second, third);
    law_replies_can_be_split(s, first + second + third, fourth);
    let measured_by_cachegrind = HarnessView {
        cachegrind: if config.cachegrind {
            Some(first_results(names, runs, names.len()))
        } else {
            None
        },
        ..asked
    };
    assert(after(asked.at_first_tool(), third) == measured_by_cachegrind.after_cachegrind()) by {
        if config.cachegrind {
            law_cachegrind_measures_every_benchmark(asked, runs, status);
        }
    }
    assert(after(measured_by_cachegrind.after_cachegrind(), fourth) == final_harness(
        config,
        names,
        args,
        allow_aslr,
        group_by_benchmark,
        runs,
        run,
    ).showing()) by {
        if config.callgrind {
            law_callgrind_measures_all_benchmarks(measured_by_cachegrind, run, status);
        }
    }
}

/// When it is known what the environment asks for, the first tool has its turn.
proof fn lemma_answers(
    config: ConfigView,
    names: Seq<Seq<char>>,
    args: Seq<Seq<char>>,
    allow_aslr: bool,
    group_by_benchmark: bool,
)
    requires
        mode_of(args) == Ok::<InvocationMode, InvocationParseError>(InvocationMode::Parent),
    ensures
        ({
            let both = config.cachegrind && config.callgrind;
            let s = first_session(config, names, args);
            let answers = seq![ReplyView::Answer(allow_aslr)] + (if both {
                seq![ReplyView::Answer(group_by_benchmark)]
            } else {
                Seq::empty()
            });
            after(s, answers) == (HarnessView {
                allow_aslr,
                group_by_benchmark: both && group_by_benchmark,
                ..s.harness
            }).at_first_tool()
        }),
{
    let both = config.cachegrind && config.callgrind;
    let s = first_session(config, names, args);
    let first = ReplyView::Answer(allow_aslr);
    let second = ReplyView::Answer(group_by_benchmark);
    let asked = HarnessView { allow_aslr, ..s.harness };
    lemma_extend(s, Seq::empty(), first);
    assert(Seq::empty().push(first) == seq![first]);
    if both {
        assert(taken(s, first) == asked.at(PhaseView::AskingGrouping)) by {
            reveal(taken);
        }
        lemma_extend(s, seq![first], second);
        assert(seq![first] + seq![second] == seq![first].push(second));
        assert(taken(asked.at(PhaseView::AskingGrouping), second) == (HarnessView {
            group_by_benchmark,
            ..asked
        }).at_first_tool()) by {
            reveal(taken);
        }
        lemma_path_is_after(s, seq![first] + seq![second]);
    } else {
        assert(taken(s, first) == asked.at_first_tool()) by {
            reveal(taken);
        }
        assert(seq![first] + Seq::<ReplyView>::empty() == seq![first]);
        lemma_path_is_after(s, seq![first]);
    }
}

/// With one tool, the reports on all results are printed, one after the other, and the harness
/// ends. Where a result cannot be reported on, it ends in a panic.
pub proof fn law_single_tool_prints_all_reports(harness: HarnessView)
    requires
        !harness.group_by_benchmark,
        harness.callgrind is None || harness.cachegrind is None,
        !harness.both_active(),
    ensures
        ({
            let results = match (harness.cachegrind, harness.callgrind) {
                (Some(results), _) => results,
                (None, Some(results)) => entries(harness.names, results),
                (None, None) => Seq::empty(),
            };
            let s = harness.showing();
            if all_reportable(results) {
                &&& s.pending() == (ActionView::Print { lines: reports(results) })
                &&& s.next(ReplyView::Done).pending() is Finish
            } else {
                s.next(ReplyView::Done).pending() is Abort
            }
        }),
{
    reveal(HarnessView::output);
    let start = OutputView::start();
    match (harness.cachegrind, harness.callgrind) {
        (Some(results), _) => {
            law_results_are_shown_in_full(start, results);
            assert(start.lines + reports(results) == reports(results));
        },
        (None, Some(results)) => {
            let shown = entries(harness.names, results);
            law_entries_are_results(start, harness.names, results);
            law_results_are_shown_in_full(start, shown);
            assert(start.lines + reports(shown) == reports(shown));
        },
        (None, None) => {
            assert(all_reportable(Seq::empty()));
        },
    }
}

} // verus!
