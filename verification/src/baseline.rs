//! What a profiling run is compared with: the output of the run before.
//!
//! The files are modelled by a map from their paths to their contents.

#[allow(unused_imports)]
use crate::command::{
    cachegrind_files, callgrind_files, law_earlier_output_is_another_file,
    law_output_files_are_distinct, law_output_files_lie_in_target, CommandView, OutputFilesView,
};
#[allow(unused_imports)]
use crate::course::after;
#[allow(unused_imports)]
use crate::error::RunnerErrorView;
#[allow(unused_imports)]
use crate::outcome::{
    all_readable, cachegrind_reader, callgrind_reader, counted, counted_before, exit, files_at,
    first_results, readable, run_replies, RunFiles,
};
#[allow(unused_imports)]
use crate::parse::{
    cachegrind_stats, callgrind_stats_from, checked_counters, data_line_values, ContentsView,
};
#[allow(unused_imports)]
use crate::protocol::{ActionView, ReplyView};
#[allow(unused_imports)]
use crate::session::{
    stage_action, stage_progress, CachegrindJobView, HarnessView, PhaseView, ProgressView, Stage,
};
#[allow(unused_imports)]
use crate::stats::CachegrindStats;
#[allow(unused_imports)]
use crate::text::{stripped, words};
use vstd::prelude::*;

verus! {

/// A reply, and the files as they are when it is given.
pub struct Step {
    pub reply: ReplyView,
    pub files: Map<Seq<char>, ContentsView>,
}

/// The replies of some steps.
pub open spec fn replies_of(steps: Seq<Step>) -> Seq<ReplyView> {
    steps.map_values(|step: Step| step.reply)
}

/// The files after some steps, where they were `before` in front of them.
pub open spec fn files_after(before: Map<Seq<char>, ContentsView>, steps: Seq<Step>) -> Map<
    Seq<char>,
    ContentsView,
> {
    if steps.len() == 0 {
        before
    } else {
        steps.last().files
    }
}

/// Whether an action can have this reply and turn the files `before` into the files `later`. A
/// profiler writes nothing but its output file, and nobody else writes files meanwhile.
pub open spec fn happens(
    action: ActionView,
    output: Seq<char>,
    before: Map<Seq<char>, ContentsView>,
    reply: ReplyView,
    later: Map<Seq<char>, ContentsView>,
) -> bool {
    &&& action.answered_by(reply)
    &&& match action {
        ActionView::FileExists { path } => {
            &&& reply == ReplyView::Answer(before.contains_key(path))
            &&& later == before
        },
        ActionView::CopyFile { from, to } => if reply is Done {
            &&& before.contains_key(from)
            &&& later == before.insert(to, before[from])
        } else {
            later.remove(to) == before.remove(to)
        },
        ActionView::ReadFile { path } => {
            &&& reply matches ReplyView::Contents(contents) ==> before.contains_key(path)
                && contents == before[path]
            &&& later == before
        },
        ActionView::RunCommand { .. } => later.remove(output) == before.remove(output),
        _ => later == before,
    }
}

/// How far a profiling run has come after some replies.
pub open spec fn run_progress<T>(
    files: OutputFilesView,
    read: spec_fn(ContentsView, Seq<char>) -> Result<T, RunnerErrorView>,
    replies: Seq<ReplyView>,
) -> ProgressView<T>
    decreases replies.len(),
{
    if replies.len() == 0 {
        ProgressView::Continue(Stage::CreatingDirectory)
    } else {
        match run_progress(files, read, replies.drop_last()) {
            ProgressView::Continue(stage) => stage_progress(stage, files, replies.last(), read),
            ended => ended,
        }
    }
}

/// Whether the steps are those of a profiling run, from its begin to some point up to its end, in a
/// world where the files were `before` when it began.
pub open spec fn run_happens<T>(
    files: OutputFilesView,
    command: CommandView,
    read: spec_fn(ContentsView, Seq<char>) -> Result<T, RunnerErrorView>,
    before: Map<Seq<char>, ContentsView>,
    steps: Seq<Step>,
) -> bool
    decreases steps.len(),
{
    steps.len() > 0 ==> {
        let earlier = steps.drop_last();
        &&& run_happens(files, command, read, before, earlier)
        &&& run_progress(files, read, replies_of(earlier)) matches ProgressView::Continue(stage)
            && happens(
            stage_action(stage, files, command),
            files.output,
            files_after(before, earlier),
            steps.last().reply,
            steps.last().files,
        )
    }
}

/// What stands at a path.
pub open spec fn contents_at(files: Map<Seq<char>, ContentsView>, path: Seq<char>) -> Option<
    ContentsView,
> {
    if files.contains_key(path) {
        Some(files[path])
    } else {
        None
    }
}

/// What a run that finds the files `before` is compared with: the output that is there, or else
/// what was kept of an earlier one.
pub open spec fn compared_with(
    files: OutputFilesView,
    before: Map<Seq<char>, ContentsView>,
) -> Option<ContentsView> {
    match contents_at(before, files.output) {
        Some(contents) => Some(contents),
        None => contents_at(before, files.old_output),
    }
}

/// Where the files stand when a profiling run has come so far.
spec fn files_stand<T>(
    files: OutputFilesView,
    read: spec_fn(ContentsView, Seq<char>) -> Result<T, RunnerErrorView>,
    before: Map<Seq<char>, ContentsView>,
    now: Map<Seq<char>, ContentsView>,
    progress: ProgressView<T>,
) -> bool {
    let kept = contents_at(now, files.old_output) == compared_with(files, before);
    let written = |fresh: T|
        now.contains_key(files.output) && read(now[files.output], files.output) == Ok::<
            T,
            RunnerErrorView,
        >(fresh);
    match progress {
        ProgressView::Continue(Stage::CreatingDirectory)
        | ProgressView::Continue(Stage::CheckingOutput) => now == before,
        ProgressView::Continue(Stage::SavingOutput) => now == before && before.contains_key(
            files.output,
        ),
        ProgressView::Continue(Stage::Running) | ProgressView::Continue(Stage::Reading) => kept,
        ProgressView::Continue(Stage::CheckingOld { fresh }) => kept && written(fresh),
        ProgressView::Continue(Stage::ReadingOld { fresh }) => kept && written(fresh)
            && now.contains_key(files.old_output),
        ProgressView::Obtained { fresh, old } => {
            &&& kept
            &&& written(fresh)
            &&& match compared_with(files, before) {
                Some(contents) => old matches Some(old) && read(contents, files.old_output) == Ok::<
                    T,
                    RunnerErrorView,
                >(old),
                None => old is None,
            }
        },
        ProgressView::Failed(_) => true,
    }
}

/// A profiling run keeps the output that it finds, and is compared with that: what it gives as the
/// counters of the run before is read from the output that was there when it began, or else from
/// the one that was kept before that. Its own output is the one that is there in the end.
pub proof fn law_run_is_compared_with_what_it_finds<T>(
    files: OutputFilesView,
    command: CommandView,
    read: spec_fn(ContentsView, Seq<char>) -> Result<T, RunnerErrorView>,
    before: Map<Seq<char>, ContentsView>,
    steps: Seq<Step>,
    fresh: T,
    old: Option<T>,
)
    requires
        files.output != files.old_output,
        run_happens(files, command, read, before, steps),
        run_progress(files, read, replies_of(steps)) == (ProgressView::Obtained { fresh, old }),
    ensures
        ({
            let later = files_after(before, steps);
            &&& later.contains_key(files.output)
            &&& read(later[files.output], files.output) == Ok::<T, RunnerErrorView>(fresh)
            &&& contents_at(later, files.old_output) == compared_with(files, before)
            &&& match compared_with(files, before) {
                Some(contents) => old matches Some(old) && read(contents, files.old_output) == Ok::<
                    T,
                    RunnerErrorView,
                >(old),
                None => old is None,
            }
        }),
{
    lemma_files_stand(files, command, read, before, steps);
}

/// The files stand where they should at each point of a run.
proof fn lemma_files_stand<T>(
    files: OutputFilesView,
    command: CommandView,
    read: spec_fn(ContentsView, Seq<char>) -> Result<T, RunnerErrorView>,
    before: Map<Seq<char>, ContentsView>,
    steps: Seq<Step>,
)
    requires
        files.output != files.old_output,
        run_happens(files, command, read, before, steps),
    ensures
        files_stand(
            files,
            read,
            before,
            files_after(before, steps),
            run_progress(files, read, replies_of(steps)),
        ),
    decreases steps.len(),
{
    if steps.len() > 0 {
        let earlier = steps.drop_last();
        lemma_files_stand(files, command, read, before, earlier);
        assert(replies_of(steps).drop_last() == replies_of(earlier));
        assert(replies_of(steps).last() == steps.last().reply);
        let stage = run_progress(files, read, replies_of(earlier))->Continue_0;
        lemma_step_keeps_files(
            files,
            command,
            read,
            before,
            files_after(before, earlier),
            stage,
            steps.last(),
        );
    }
}

/// One step of a run leaves the files where they should stand.
proof fn lemma_step_keeps_files<T>(
    files: OutputFilesView,
    command: CommandView,
    read: spec_fn(ContentsView, Seq<char>) -> Result<T, RunnerErrorView>,
    before: Map<Seq<char>, ContentsView>,
    now: Map<Seq<char>, ContentsView>,
    stage: Stage<T>,
    step: Step,
)
    requires
        files.output != files.old_output,
        files_stand(files, read, before, now, ProgressView::Continue(stage)),
        happens(stage_action(stage, files, command), files.output, now, step.reply, step.files),
    ensures
        files_stand(
            files,
            read,
            before,
            step.files,
            stage_progress(stage, files, step.reply, read),
        ),
{
    if stage is Running {
        let old = files.old_output;
        assert(step.files.remove(files.output).contains_key(old) == now.remove(
            files.output,
        ).contains_key(old));
        if now.contains_key(old) {
            assert(step.files.remove(files.output)[old] == now.remove(files.output)[old]);
        }
    }
}

/// The counters that Cachegrind's output holds do not depend on where it stands.
proof fn lemma_cachegrind_counters_are_in_the_contents(
    contents: ContentsView,
    path: Seq<char>,
    other: Seq<char>,
)
    requires
        cachegrind_stats(contents, path) is Ok,
    ensures
        cachegrind_stats(contents, other) == cachegrind_stats(contents, path),
{
}

/// The counters that Callgrind's output holds do not depend on where it stands.
proof fn lemma_callgrind_counters_are_in_the_contents(
    contents: ContentsView,
    path: Seq<char>,
    other: Seq<char>,
    i: nat,
    names: Option<Seq<Seq<char>>>,
    found: Map<Seq<char>, CachegrindStats>,
)
    requires
        callgrind_stats_from(contents, path, i, names, found) is Ok,
    ensures
        callgrind_stats_from(contents, other, i, names, found) == callgrind_stats_from(
            contents,
            path,
            i,
            names,
            found,
        ),
    decreases contents.lines.len() - i,
{
    let lines = contents.lines;
    if i < lines.len() {
        if let Some(events) = stripped(lines[i as int], "events: "@) {
            lemma_callgrind_counters_are_in_the_contents(
                contents,
                path,
                other,
                i + 1,
                Some(words(events)),
                found,
            );
        } else if let Some(name) = stripped(lines[i as int], "cfn=__iai_bench_"@) {
            let values = data_line_values(names->0, lines[i as int + 2], path)->Ok_0;
            let stats = checked_counters(values)->Ok_0;
            lemma_callgrind_counters_are_in_the_contents(
                contents,
                path,
                other,
                i + 3,
                names,
                found.insert(name, stats),
            );
        } else {
            lemma_callgrind_counters_are_in_the_contents(contents, path, other, i + 1, names, found);
        }
    }
}

/// A benchmark is compared with its immediately preceding run under Cachegrind: where its output
/// file has not been touched since a run gave counters, the next run gives those as the counters of
/// the run before.
pub proof fn law_cachegrind_is_compared_with_the_run_before(
    name: Seq<char>,
    first_command: CommandView,
    first_before: Map<Seq<char>, ContentsView>,
    first_steps: Seq<Step>,
    first_fresh: CachegrindStats,
    first_old: Option<CachegrindStats>,
    command: CommandView,
    before: Map<Seq<char>, ContentsView>,
    steps: Seq<Step>,
    fresh: CachegrindStats,
    old: Option<CachegrindStats>,
)
    requires
        ({
            let files = cachegrind_files(name)->Ok_0;
            let read = cachegrind_reader();
            &&& run_happens(files, first_command, read, first_before, first_steps)
            &&& run_progress(files, read, replies_of(first_steps)) == (ProgressView::Obtained {
                fresh: first_fresh,
                old: first_old,
            })
            &&& contents_at(before, files.output) == contents_at(
                files_after(first_before, first_steps),
                files.output,
            )
            &&& run_happens(files, command, read, before, steps)
            &&& run_progress(files, read, replies_of(steps)) == (ProgressView::Obtained {
                fresh,
                old,
            })
        }),
    ensures
        old == Some(first_fresh),
{
    let files = cachegrind_files(name)->Ok_0;
    let read = cachegrind_reader();
    law_earlier_output_is_another_file(name);
    law_run_is_compared_with_what_it_finds(
        files,
        first_command,
        read,
        first_before,
        first_steps,
        first_fresh,
        first_old,
    );
    law_run_is_compared_with_what_it_finds(files, command, read, before, steps, fresh, old);
    lemma_cachegrind_counters_are_in_the_contents(
        before[files.output],
        files.output,
        files.old_output,
    );
}

/// The benchmarks are compared with their immediately preceding run under Callgrind.
pub proof fn law_callgrind_is_compared_with_the_run_before(
    first_command: CommandView,
    first_before: Map<Seq<char>, ContentsView>,
    first_steps: Seq<Step>,
    first_fresh: Map<Seq<char>, CachegrindStats>,
    first_old: Option<Map<Seq<char>, CachegrindStats>>,
    command: CommandView,
    before: Map<Seq<char>, ContentsView>,
    steps: Seq<Step>,
    fresh: Map<Seq<char>, CachegrindStats>,
    old: Option<Map<Seq<char>, CachegrindStats>>,
)
    requires
        ({
            let files = callgrind_files()->Ok_0;
            let read = callgrind_reader();
            &&& run_happens(files, first_command, read, first_before, first_steps)
            &&& run_progress(files, read, replies_of(first_steps)) == (ProgressView::Obtained {
                fresh: first_fresh,
                old: first_old,
            })
            &&& contents_at(before, files.output) == contents_at(
                files_after(first_before, first_steps),
                files.output,
            )
            &&& run_happens(files, command, read, before, steps)
            &&& run_progress(files, read, replies_of(steps)) == (ProgressView::Obtained {
                fresh,
                old,
            })
        }),
    ensures
        old == Some(first_fresh),
{
    let files = callgrind_files()->Ok_0;
    let read = callgrind_reader();
    law_earlier_output_is_another_file(Seq::empty());
    law_run_is_compared_with_what_it_finds(
        files,
        first_command,
        read,
        first_before,
        first_steps,
        first_fresh,
        first_old,
    );
    law_run_is_compared_with_what_it_finds(files, command, read, before, steps, fresh, old);
    lemma_callgrind_counters_are_in_the_contents(
        before[files.output],
        files.output,
        files.old_output,
        0,
        None,
        Map::empty(),
    );
}

/// A first run is compared with nothing: where there is neither an output file nor one that was
/// kept, there are no counters of a run before.
pub proof fn law_first_run_is_compared_with_nothing<T>(
    files: OutputFilesView,
    command: CommandView,
    read: spec_fn(ContentsView, Seq<char>) -> Result<T, RunnerErrorView>,
    before: Map<Seq<char>, ContentsView>,
    steps: Seq<Step>,
    fresh: T,
    old: Option<T>,
)
    requires
        files.output != files.old_output,
        !before.contains_key(files.output),
        !before.contains_key(files.old_output),
        run_happens(files, command, read, before, steps),
        run_progress(files, read, replies_of(steps)) == (ProgressView::Obtained { fresh, old }),
    ensures
        old is None,
{
    law_run_is_compared_with_what_it_finds(files, command, read, before, steps, fresh, old);
}

/// In a session, a run of Cachegrind that has begun takes the replies as `run_progress` says, until
/// it ends.
pub proof fn law_session_follows_the_run_of_cachegrind(
    harness: HarnessView,
    job: CachegrindJobView,
    files: OutputFilesView,
    replies: Seq<ReplyView>,
)
    requires
        replies.len() > 0 ==> run_progress(
            files,
            cachegrind_reader(),
            replies.drop_last(),
        ) is Continue,
    ensures
        after(
            harness.at(PhaseView::Cachegrind { job, files, stage: Stage::CreatingDirectory }),
            replies,
        ) == harness.in_cachegrind(job, files, run_progress(files, cachegrind_reader(), replies)),
    decreases replies.len(),
{
    if replies.len() > 0 {
        let fewer = replies.drop_last();
        if fewer.len() > 0 {
            lemma_run_went_on(files, cachegrind_reader(), fewer);
        }
        law_session_follows_the_run_of_cachegrind(harness, job, files, fewer);
    }
}

/// In a session, the run of Callgrind that has begun takes the replies as `run_progress` says,
/// until it ends.
pub proof fn law_session_follows_the_run_of_callgrind(
    harness: HarnessView,
    files: OutputFilesView,
    replies: Seq<ReplyView>,
)
    requires
        replies.len() > 0 ==> run_progress(
            files,
            callgrind_reader(),
            replies.drop_last(),
        ) is Continue,
    ensures
        after(
            harness.at(PhaseView::Callgrind { files, stage: Stage::CreatingDirectory }),
            replies,
        ) == harness.in_callgrind(files, run_progress(files, callgrind_reader(), replies)),
    decreases replies.len(),
{
    if replies.len() > 0 {
        let fewer = replies.drop_last();
        if fewer.len() > 0 {
            lemma_run_went_on(files, callgrind_reader(), fewer);
        }
        law_session_follows_the_run_of_callgrind(harness, files, fewer);
    }
}

/// A run that goes on was going on before.
proof fn lemma_run_went_on<T>(
    files: OutputFilesView,
    read: spec_fn(ContentsView, Seq<char>) -> Result<T, RunnerErrorView>,
    replies: Seq<ReplyView>,
)
    requires
        replies.len() > 0,
        run_progress(files, read, replies) is Continue,
    ensures
        run_progress(files, read, replies.drop_last()) is Continue,
{
}

/// What a run without failures finds where the files are `before`, and writes.
pub open spec fn run_found(
    files: OutputFilesView,
    before: Map<Seq<char>, ContentsView>,
    written: ContentsView,
) -> RunFiles {
    RunFiles {
        present: before.contains_key(files.output),
        fresh: written,
        old: compared_with(files, before),
    }
}

/// The files when the output that was there, if any, has been put aside.
pub open spec fn files_saved(
    files: OutputFilesView,
    before: Map<Seq<char>, ContentsView>,
) -> Map<Seq<char>, ContentsView> {
    if before.contains_key(files.output) {
        before.insert(files.old_output, before[files.output])
    } else {
        before
    }
}

/// The files that a run without failures leaves behind.
pub open spec fn files_left(
    files: OutputFilesView,
    before: Map<Seq<char>, ContentsView>,
    written: ContentsView,
) -> Map<Seq<char>, ContentsView> {
    files_saved(files, before).insert(files.output, written)
}

/// The steps of a run without failures.
pub open spec fn run_steps(
    files: OutputFilesView,
    before: Map<Seq<char>, ContentsView>,
    written: ContentsView,
    status: Seq<char>,
) -> Seq<Step> {
    let saved = files_saved(files, before);
    let left = files_left(files, before, written);
    seq![
        Step { reply: ReplyView::Done, files: before },
        Step { reply: ReplyView::Answer(before.contains_key(files.output)), files: before },
    ] + (if before.contains_key(files.output) {
        seq![Step { reply: ReplyView::Done, files: saved }]
    } else {
        Seq::empty()
    }) + seq![
        Step { reply: exit(status), files: left },
        Step { reply: ReplyView::Contents(written), files: left },
    ] + (match compared_with(files, before) {
        Some(old) => seq![
            Step { reply: ReplyView::Answer(true), files: left },
            Step { reply: ReplyView::Contents(old), files: left },
        ],
        None => seq![Step { reply: ReplyView::Answer(false), files: left }],
    })
}

/// The replies to a run without failures are those that the files call for, and the files that it
/// leaves behind are those that its actions make.
pub proof fn law_replies_are_true_to_the_files<T>(
    files: OutputFilesView,
    command: CommandView,
    read: spec_fn(ContentsView, Seq<char>) -> Result<T, RunnerErrorView>,
    before: Map<Seq<char>, ContentsView>,
    written: ContentsView,
    status: Seq<char>,
)
    requires
        files.output != files.old_output,
        readable(run_found(files, before, written), files, read),
    ensures
        ({
            let steps = run_steps(files, before, written, status);
            &&& run_happens(files, command, read, before, steps)
            &&& replies_of(steps) == run_replies(run_found(files, before, written), status)
            &&& files_after(before, steps) == files_left(files, before, written)
        }),
{
    let present = before.contains_key(files.output);
    let saved = files_saved(files, before);
    let left = files_left(files, before, written);
    let all = run_steps(files, before, written, status);
    let kept = compared_with(files, before);

    let t = Seq::<Step>::empty();
    let t = lemma_step(files, command, read, before, t, ReplyView::Done, before);
    let t = lemma_step(files, command, read, before, t, ReplyView::Answer(present), before);
    let t = if present {
        lemma_step(files, command, read, before, t, ReplyView::Done, saved)
    } else {
        t
    };
    assert(left.remove(files.output) == saved.remove(files.output));
    let t = lemma_step(files, command, read, before, t, exit(status), left);
    let t = lemma_step(files, command, read, before, t, ReplyView::Contents(written), left);
    assert(contents_at(left, files.old_output) == kept);
    let t = lemma_step(files, command, read, before, t, ReplyView::Answer(kept is Some), left);
    let t = match kept {
        Some(old) => lemma_step(files, command, read, before, t, ReplyView::Contents(old), left),
        None => t,
    };
    assert(t == all);
    assert(replies_of(all) == run_replies(run_found(files, before, written), status));
}

/// One more step of a run.
proof fn lemma_step<T>(
    files: OutputFilesView,
    command: CommandView,
    read: spec_fn(ContentsView, Seq<char>) -> Result<T, RunnerErrorView>,
    before: Map<Seq<char>, ContentsView>,
    steps: Seq<Step>,
    reply: ReplyView,
    later: Map<Seq<char>, ContentsView>,
) -> (longer: Seq<Step>)
    requires
        run_happens(files, command, read, before, steps),
        run_progress(files, read, replies_of(steps)) matches ProgressView::Continue(stage)
            && happens(
            stage_action(stage, files, command),
            files.output,
            files_after(before, steps),
            reply,
            later,
        ),
    ensures
        longer == steps.push(Step { reply, files: later }),
        run_happens(files, command, read, before, longer),
        files_after(before, longer) == later,
        run_progress(files, read, replies_of(longer)) == stage_progress(
            run_progress(files, read, replies_of(steps))->Continue_0,
            files,
            reply,
            read,
        ),
{
    let longer = steps.push(Step { reply, files: later });
    assert(longer.drop_last() == steps);
    assert(replies_of(longer).drop_last() == replies_of(steps));
    assert(replies_of(longer).last() == reply);
    longer
}

/// The files after runs of Cachegrind without failures: the calibration, and then the first
/// benchmarks. `written` is what each of them writes.
pub open spec fn files_left_by(
    names: Seq<Seq<char>>,
    before: Map<Seq<char>, ContentsView>,
    written: Seq<ContentsView>,
) -> Map<Seq<char>, ContentsView>
    decreases written.len(),
{
    if written.len() == 0 {
        before
    } else {
        files_left(
            files_at(names, written.len() - 1),
            files_left_by(names, before, written.drop_last()),
            written.last(),
        )
    }
}

/// What the runs of Cachegrind find, one after the other.
pub open spec fn runs_found(
    names: Seq<Seq<char>>,
    before: Map<Seq<char>, ContentsView>,
    written: Seq<ContentsView>,
) -> Seq<RunFiles> {
    Seq::new(
        written.len(),
        |k: int|
            run_found(
                files_at(names, k),
                files_left_by(names, before, written.take(k)),
                written[k],
            ),
    )
}

/// Whether no run of Cachegrind writes over the output of another one.
pub open spec fn separate(names: Seq<Seq<char>>) -> bool {
    forall|i: int, j: int|
        0 <= i <= names.len() && 0 <= j <= names.len() ==> {
            &&& #[trigger] files_at(names, i).output != #[trigger] files_at(names, j).old_output
            &&& i != j ==> files_at(names, i).output != files_at(names, j).output
        }
}

/// Benchmarks that have different names without separators and dots, as functions have, do not
/// write over each other's output, nor over that of the calibration.
pub proof fn law_benchmarks_have_separate_files(names: Seq<Seq<char>>)
    requires
        names.no_duplicates(),
        forall|i: int|
            0 <= i < names.len() ==> {
                &&& !(#[trigger] names[i]).contains('/')
                &&& !names[i].contains('.')
                &&& names[i] != "iai_calibration"@
            },
    ensures
        separate(names),
{
    reveal_strlit("iai_calibration");
    reveal_strlit(".old");
    let prefix = "target/iai/cachegrind.out."@;
    let name_at = |k: int|
        if k == 0 {
            "iai_calibration"@
        } else {
            names[k - 1]
        };
    assert forall|i: int, j: int| 0 <= i <= names.len() && 0 <= j <= names.len() implies {
        &&& #[trigger] files_at(names, i).output != #[trigger] files_at(names, j).old_output
        &&& i != j ==> files_at(names, i).output != files_at(names, j).output
    } by {
        let first = name_at(i);
        let second = name_at(j);
        assert(!first.contains('/') && !first.contains('.'));
        assert(!second.contains('/'));
        law_output_files_lie_in_target(first);
        law_output_files_lie_in_target(second);
        if prefix + first == prefix + second + ".old"@ {
            assert(first == (prefix + first).skip(prefix.len() as int));
            assert(second + ".old"@ == (prefix + second + ".old"@).skip(prefix.len() as int));
            assert((second + ".old"@)[second.len() as int] == '.');
            assert(first.contains('.'));
        }
        if i != j {
            assert(first != second);
            law_output_files_are_distinct(first, second);
        }
    }
}

/// A file that is none of the runs' is not touched, and the last output of each run is there.
proof fn lemma_files_left_by(
    names: Seq<Seq<char>>,
    before: Map<Seq<char>, ContentsView>,
    written: Seq<ContentsView>,
    i: int,
)
    requires
        separate(names),
        written.len() <= names.len() + 1,
        0 <= i <= names.len(),
    ensures
        contents_at(files_left_by(names, before, written), files_at(names, i).output) == (if i
            < written.len() {
            Some(written[i])
        } else {
            contents_at(before, files_at(names, i).output)
        }),
    decreases written.len(),
{
    if written.len() > 0 {
        lemma_files_left_by(names, before, written.drop_last(), i);
        let last = files_at(names, written.len() - 1);
        assert(files_at(names, i).output != last.old_output);
    }
}

/// Where the benchmarks are run a second time, each of them is compared with its first run: what is
/// shown as its result before is its result of the first run.
///
/// The files that the first benchmark run finds do not matter, nor does what is written.
pub proof fn law_second_benchmark_run_is_compared_with_the_first(
    names: Seq<Seq<char>>,
    before: Map<Seq<char>, ContentsView>,
    first_written: Seq<ContentsView>,
    written: Seq<ContentsView>,
    i: int,
)
    requires
        separate(names),
        first_written.len() == names.len() + 1,
        written.len() == names.len() + 1,
        all_readable(names, runs_found(names, before, first_written)),
        0 <= i < names.len(),
    ensures
        ({
            let first_runs = runs_found(names, before, first_written);
            let runs = runs_found(names, files_left_by(names, before, first_written), written);
            first_results(names, runs, names.len())[i].old_stats == Some(
                first_results(names, first_runs, names.len())[i].stats,
            )
        }),
{
    lemma_run_finds_the_first(names, before, first_written, written, 0);
    lemma_run_finds_the_first(names, before, first_written, written, i + 1);
}

/// A run of the second benchmark run counted before what that run of the first one counted.
proof fn lemma_run_finds_the_first(
    names: Seq<Seq<char>>,
    before: Map<Seq<char>, ContentsView>,
    first_written: Seq<ContentsView>,
    written: Seq<ContentsView>,
    k: int,
)
    requires
        separate(names),
        first_written.len() == names.len() + 1,
        written.len() == names.len() + 1,
        all_readable(names, runs_found(names, before, first_written)),
        0 <= k <= names.len(),
    ensures
        ({
            let first_run = runs_found(names, before, first_written)[k];
            let run = runs_found(
                names,
                files_left_by(names, before, first_written),
                written,
            )[k];
            counted_before(run, files_at(names, k), cachegrind_reader()) == Some(
                counted(first_run, files_at(names, k), cachegrind_reader()),
            )
        }),
{
    let files = files_at(names, k);
    let middle = files_left_by(names, before, first_written);
    let first_run = runs_found(names, before, first_written)[k];
    assert(readable(first_run, files, cachegrind_reader()));
    lemma_files_left_by(names, before, first_written, k);
    lemma_files_left_by(names, middle, written.take(k), k);
    lemma_cachegrind_counters_are_in_the_contents(
        first_written[k],
        files.output,
        files.old_output,
    );
}

/// Where there is no earlier calibration, as in a first benchmark run, no benchmark is compared
/// with anything.
pub proof fn law_first_benchmark_run_is_compared_with_nothing(
    names: Seq<Seq<char>>,
    before: Map<Seq<char>, ContentsView>,
    written: Seq<ContentsView>,
    i: int,
)
    requires
        written.len() == names.len() + 1,
        !before.contains_key(files_at(names, 0).output),
        !before.contains_key(files_at(names, 0).old_output),
        0 <= i < names.len(),
    ensures
        first_results(
            names,
            runs_found(names, before, written),
            names.len(),
        )[i].old_stats is None,
{
    assert(written.take(0).len() == 0);
}

} // verus!
