//! What the harness shows of the results.

use crate::number::to_decimal;
#[allow(unused_imports)]
use crate::number::decimal;
use crate::percent::percentage_diff;
#[allow(unused_imports)]
use crate::percent::difference_text;
#[allow(unused_imports)]
use crate::stats::{CachegrindStats, CachegrindSummary};
use crate::stats::{BenchStats, BenchStatsMap, BenchSummary};
use crate::text::{pad_left, same};
#[allow(unused_imports)]
use crate::text::{padded, views};
use crate::tool::Tool;
use vstd::prelude::*;

verus! {

/// The result of one benchmark.
#[derive(Debug)]
pub struct BenchResult {
    pub name: String,
    pub stats: BenchStats,
    /// The counters of the run before, where its output file is still there.
    pub old_stats: Option<BenchStats>,
}

/// The model of a `BenchResult`.
pub struct BenchResultView {
    pub name: Seq<char>,
    pub stats: CachegrindStats,
    pub old_stats: Option<CachegrindStats>,
}

/// The results of Callgrind, by benchmark: of this run, and of the run before.
pub struct CallgrindResults {
    pub stats: BenchStatsMap,
    pub old_stats: BenchStatsMap,
}

/// The model of `CallgrindResults`.
pub struct CallgrindResultsView {
    pub stats: Map<Seq<char>, CachegrindStats>,
    pub old_stats: Map<Seq<char>, CachegrindStats>,
}

/// Lines for the standard output.
#[derive(Debug)]
pub struct Output {
    pub lines: Vec<String>,
    /// Whether all of the results could be shown. The output ends in front of the first result
    /// whose counters contradict each other or are too large to be summed up.
    pub complete: bool,
}

/// The model of an `Output`.
pub struct OutputView {
    pub lines: Seq<Seq<char>>,
    pub complete: bool,
}

impl View for BenchResult {
    type V = BenchResultView;

    open spec fn view(&self) -> BenchResultView {
        BenchResultView { name: self.name@, stats: self.stats, old_stats: self.old_stats }
    }
}

impl View for CallgrindResults {
    type V = CallgrindResultsView;

    open spec fn view(&self) -> CallgrindResultsView {
        CallgrindResultsView { stats: self.stats@, old_stats: self.old_stats@ }
    }
}

impl View for Output {
    type V = OutputView;

    open spec fn view(&self) -> OutputView {
        OutputView { lines: views(self.lines@), complete: self.complete }
    }
}

/// The models of results.
pub open spec fn result_views(results: Seq<BenchResult>) -> Seq<BenchResultView> {
    results.map_values(|r: BenchResult| r@)
}

/// The models of the results of Cachegrind, where there are any.
pub open spec fn cachegrind_view(results: Option<Vec<BenchResult>>) -> Option<
    Seq<BenchResultView>,
> {
    match results {
        Some(results) => Some(result_views(results@)),
        None => None,
    }
}

/// The model of the results of Callgrind, where there are any.
pub open spec fn callgrind_view(results: Option<CallgrindResults>) -> Option<CallgrindResultsView> {
    match results {
        Some(results) => Some(results@),
        None => None,
    }
}

/// A line of a report: a label, a value in a column of 15 characters, and how the value changed.
pub open spec fn value_line(label: Seq<char>, value: int, old_value: Option<int>) -> Seq<char> {
    label + padded(decimal(value as nat), 15) + match old_value {
        Some(old_value) => difference_text(value as nat, old_value as nat),
        None => Seq::empty(),
    }
}

/// The report on one benchmark.
pub open spec fn report_lines(
    name: Seq<char>,
    stats: CachegrindStats,
    old_stats: Option<CachegrindStats>,
    summary: CachegrindSummary,
    old_summary: Option<CachegrindSummary>,
) -> Seq<Seq<char>> {
    seq![
        name,
        value_line(
            "  Instructions:     "@,
            stats.instruction_reads as int,
            match old_stats {
                Some(old) => Some(old.instruction_reads as int),
                None => None,
            },
        ),
        value_line(
            "  L1 Accesses:      "@,
            summary.l1_hits as int,
            match old_summary {
                Some(old) => Some(old.l1_hits as int),
                None => None,
            },
        ),
        value_line(
            "  L2 Accesses:      "@,
            summary.l3_hits as int,
            match old_summary {
                Some(old) => Some(old.l3_hits as int),
                None => None,
            },
        ),
        value_line(
            "  RAM Accesses:     "@,
            summary.ram_hits as int,
            match old_summary {
                Some(old) => Some(old.ram_hits as int),
                None => None,
            },
        ),
        value_line(
            "  Estimated Cycles: "@,
            summary.cycle_total(),
            match old_summary {
                Some(old) => Some(old.cycle_total()),
                None => None,
            },
        ),
        Seq::empty(),
    ]
}

/// The report on one benchmark, from its counters alone.
pub open spec fn stats_report(
    name: Seq<char>,
    stats: CachegrindStats,
    old_stats: Option<CachegrindStats>,
) -> Seq<Seq<char>> {
    report_lines(
        name,
        stats,
        old_stats,
        stats.summary(),
        match old_stats {
            Some(old) => Some(old.summary()),
            None => None,
        },
    )
}

/// Whether a result can be reported on.
pub open spec fn result_reportable(
    stats: CachegrindStats,
    old_stats: Option<CachegrindStats>,
) -> bool {
    stats.reportable() && (old_stats is Some ==> old_stats->0.reportable())
}

/// The name of a benchmark, with the tool that it was measured by.
pub open spec fn labeled(name: Seq<char>, tool: Tool) -> Seq<char> {
    name + " ["@ + tool.text() + "]"@
}

impl OutputView {
    /// No line yet.
    pub open spec fn start() -> OutputView {
        OutputView { lines: Seq::empty(), complete: true }
    }

    /// The output, and then the line `line`.
    pub open spec fn with_line(self, line: Seq<char>) -> OutputView {
        if self.complete {
            OutputView { lines: self.lines.push(line), complete: true }
        } else {
            self
        }
    }

    /// The output, and then the report on a benchmark.
    pub open spec fn with_report(
        self,
        name: Seq<char>,
        stats: CachegrindStats,
        old_stats: Option<CachegrindStats>,
    ) -> OutputView {
        if !self.complete {
            self
        } else if result_reportable(stats, old_stats) {
            OutputView { lines: self.lines + stats_report(name, stats, old_stats), complete: true }
        } else {
            OutputView { lines: self.lines, complete: false }
        }
    }

    /// The output, and then the heading of the results of a tool.
    pub open spec fn with_heading(self, tool: Tool) -> OutputView {
        self.with_line("\n=== "@ + tool.text() + " ==="@)
    }

    /// The output, and then the reports on `results` in their order.
    pub open spec fn with_results(self, results: Seq<BenchResultView>) -> OutputView
        decreases results.len(),
    {
        if results.len() == 0 {
            self
        } else {
            let last = results.last();
            self.with_results(results.drop_last()).with_report(
                last.name,
                last.stats,
                last.old_stats,
            )
        }
    }

    /// The output, and then the report on the benchmark `name`, where `results` hold it. It is
    /// shown under the name `shown`.
    pub open spec fn with_entry(
        self,
        shown: Seq<char>,
        name: Seq<char>,
        results: CallgrindResultsView,
    ) -> OutputView {
        if results.stats.contains_key(name) {
            self.with_report(
                shown,
                results.stats[name],
                if results.old_stats.contains_key(name) {
                    Some(results.old_stats[name])
                } else {
                    None
                },
            )
        } else {
            self
        }
    }

    /// The output, and then the reports on those of the benchmarks `names` that `results` hold.
    pub open spec fn with_entries(
        self,
        names: Seq<Seq<char>>,
        results: CallgrindResultsView,
    ) -> OutputView
        decreases names.len(),
    {
        if names.len() == 0 {
            self
        } else {
            self.with_entries(names.drop_last(), results).with_entry(
                names.last(),
                names.last(),
                results,
            )
        }
    }

    /// The output, and then the report on the first of `results` that is of the benchmark `name`.
    /// It is shown under the name `shown`.
    pub open spec fn with_first(
        self,
        shown: Seq<char>,
        name: Seq<char>,
        results: Seq<BenchResultView>,
    ) -> OutputView
        decreases results.len(),
    {
        if results.len() == 0 {
            self
        } else if results[0].name == name {
            self.with_report(shown, results[0].stats, results[0].old_stats)
        } else {
            self.with_first(shown, name, results.skip(1))
        }
    }

    /// The output, and then the reports of both tools on the benchmark `name`.
    pub open spec fn with_benchmark(
        self,
        name: Seq<char>,
        cachegrind: Option<Seq<BenchResultView>>,
        callgrind: Option<CallgrindResultsView>,
    ) -> OutputView {
        let first = match cachegrind {
            Some(results) => self.with_first(labeled(name, Tool::Cachegrind), name, results),
            None => self,
        };
        match callgrind {
            Some(results) => first.with_entry(labeled(name, Tool::Callgrind), name, results),
            None => first,
        }
    }
}

/// The output where one tool is in use: the reports without headings.
pub open spec fn single_tool(
    names: Seq<Seq<char>>,
    cachegrind: Option<Seq<BenchResultView>>,
    callgrind: Option<CallgrindResultsView>,
) -> OutputView {
    let first = match cachegrind {
        Some(results) => OutputView::start().with_results(results),
        None => OutputView::start(),
    };
    match callgrind {
        Some(results) => first.with_entries(names, results),
        None => first,
    }
}

/// The output where the reports of each tool stand together under a heading.
pub open spec fn grouped_by_tool(
    names: Seq<Seq<char>>,
    cachegrind: Option<Seq<BenchResultView>>,
    callgrind: Option<CallgrindResultsView>,
) -> OutputView {
    let first = match cachegrind {
        Some(results) => OutputView::start().with_heading(Tool::Cachegrind).with_results(results),
        None => OutputView::start(),
    };
    match callgrind {
        Some(results) => first.with_heading(Tool::Callgrind).with_entries(names, results),
        None => first,
    }
}

/// The output where the reports on each benchmark stand together, labeled with their tools.
pub open spec fn grouped_by_benchmark(
    names: Seq<Seq<char>>,
    cachegrind: Option<Seq<BenchResultView>>,
    callgrind: Option<CallgrindResultsView>,
) -> OutputView
    decreases names.len(),
{
    if names.len() == 0 {
        OutputView::start()
    } else {
        grouped_by_benchmark(names.drop_last(), cachegrind, callgrind).with_benchmark(
            names.last(),
            cachegrind,
            callgrind,
        )
    }
}

/// A line of a report: a label, a value in a column of 15 characters, and how the value changed.
fn format_value(label: &str, value: u64, old_value: Option<u64>) -> (r: String)
    ensures
        r@ == value_line(
            label@,
            value as int,
            match old_value {
                Some(old_value) => Some(old_value as int),
                None => None,
            },
        ),
{
    let mut r: String = label.to_owned();
    r.append(pad_left(to_decimal(value).as_str(), 15).as_str());
    if let Some(old_value) = old_value {
        r.append(percentage_diff(value, old_value).as_str());
    }
    assert(r@ == value_line(
        label@,
        value as int,
        match old_value {
            Some(old_value) => Some(old_value as int),
            None => None,
        },
    ));
    r
}

/// The report on one benchmark: its name, five values with their changes, and an empty line.
pub fn format_benchmark_report(
    name: &str,
    stats: &BenchStats,
    old_stats: Option<&BenchStats>,
    summary: &BenchSummary,
    old_summary: Option<&BenchSummary>,
) -> (r: Vec<String>)
    requires
        summary.cycle_total() <= u64::MAX,
        old_summary is Some ==> old_summary->0.cycle_total() <= u64::MAX,
    ensures
        views(r@) == report_lines(
            name@,
            *stats,
            (match old_stats {
                Some(old) => Some(*old),
                None => None,
            }),
            *summary,
            (match old_summary {
                Some(old) => Some(*old),
                None => None,
            }),
        ),
{
    let mut lines: Vec<String> = Vec::with_capacity(7);
    lines.push(name.to_owned());
    lines.push(
        format_value(
            "  Instructions:     ",
            stats.instruction_reads,
            match old_stats {
                Some(old) => Some(old.instruction_reads),
                None => None,
            },
        ),
    );
    lines.push(
        format_value(
            "  L1 Accesses:      ",
            summary.l1_hits,
            match old_summary {
                Some(old) => Some(old.l1_hits),
                None => None,
            },
        ),
    );
    lines.push(
        format_value(
            "  L2 Accesses:      ",
            summary.l3_hits,
            match old_summary {
                Some(old) => Some(old.l3_hits),
                None => None,
            },
        ),
    );
    lines.push(
        format_value(
            "  RAM Accesses:     ",
            summary.ram_hits,
            match old_summary {
                Some(old) => Some(old.ram_hits),
                None => None,
            },
        ),
    );
    lines.push(
        format_value(
            "  Estimated Cycles: ",
            summary.cycles(),
            match old_summary {
                Some(old) => Some(old.cycles()),
                None => None,
            },
        ),
    );
    lines.push(String::new());
    lines
}

impl Output {
    /// No line yet.
    fn new() -> (r: Output)
        ensures
            r@ == OutputView::start(),
    {
        let r = Output { lines: Vec::new(), complete: true };
        assert(r@.lines == OutputView::start().lines);
        r
    }

    /// Adds the heading of the results of a tool.
    fn add_heading(&mut self, tool: Tool)
        ensures
            final(self)@ == old(self)@.with_heading(tool),
    {
        if self.complete {
            let mut line: String = "\n=== ".to_owned();
            line.append(tool.name());
            line.append(" ===");
            let ghost before = self.lines@;
            self.lines.push(line);
            assert(views(self.lines@) == views(before).push(line@));
        }
    }

    /// Adds the report on a benchmark.
    fn add_report(&mut self, name: &str, stats: &BenchStats, old_stats: Option<&BenchStats>)
        ensures
            final(self)@ == old(self)@.with_report(
                name@,
                *stats,
                (match old_stats {
                    Some(old) => Some(*old),
                    None => None,
                }),
            ),
    {
        if !self.complete {
            return ;
        }
        let old_reportable = match old_stats {
            Some(old) => old.is_reportable(),
            None => true,
        };
        if stats.is_reportable() && old_reportable {
            let mut report = bench_report(name, stats, old_stats);
            let ghost before = self.lines@;
            let ghost added = report@;
            self.lines.append(&mut report);
            assert(views(before + added) == views(before) + views(added));
        } else {
            self.complete = false;
        }
    }

    /// Adds the reports on `results` in their order.
    fn add_results(&mut self, results: &[BenchResult])
        ensures
            final(self)@ == old(self)@.with_results(result_views(results@)),
    {
        let ghost all = result_views(results@);
        let ghost start = self@;
        let mut i: usize = 0;
        while i < results.len()
            invariant
                i <= results@.len(),
                all == result_views(results@),
                self@ == start.with_results(all.take(i as int)),
            decreases results@.len() - i,
        {
            let result = &results[i];
            proof {
                assert(all.take(i + 1).drop_last() == all.take(i as int));
                assert(all.take(i + 1).last() == result@);
            }
            self.add_report(result.name.as_str(), &result.stats, result.old_stats.as_ref());
            i = i + 1;
        }
        assert(all.take(i as int) == all);
    }

    /// Adds the report on the benchmark `name`, where `results` hold it, under the name `shown`.
    fn add_entry(&mut self, shown: &str, name: &str, results: &CallgrindResults)
        ensures
            final(self)@ == old(self)@.with_entry(shown@, name@, results@),
    {
        if let Some(stats) = results.stats.get(name) {
            self.add_report(shown, stats, results.old_stats.get(name));
        }
    }

    /// Adds the reports on those of the benchmarks `names` that `results` hold.
    fn add_entries(&mut self, names: &[String], results: &CallgrindResults)
        ensures
            final(self)@ == old(self)@.with_entries(views(names@), results@),
    {
        let ghost all = views(names@);
        let ghost start = self@;
        let mut i: usize = 0;
        while i < names.len()
            invariant
                i <= names@.len(),
                all == views(names@),
                self@ == start.with_entries(all.take(i as int), results@),
            decreases names@.len() - i,
        {
            let name = names[i].as_str();
            proof {
                assert(all.take(i + 1).drop_last() == all.take(i as int));
                assert(all.take(i + 1).last() == name@);
            }
            self.add_entry(name, name, results);
            i = i + 1;
        }
        assert(all.take(i as int) == all);
    }

    /// Adds the report on the first of `results` that is of the benchmark `name`, under the name
    /// `shown`.
    fn add_first(&mut self, shown: &str, name: &str, results: &[BenchResult])
        ensures
            final(self)@ == old(self)@.with_first(shown@, name@, result_views(results@)),
    {
        let ghost all = result_views(results@);
        let mut i: usize = 0;
        assert(all.skip(0) == all);
        while i < results.len()
            invariant
                i <= results@.len(),
                all == result_views(results@),
                self@ == old(self)@,
                self@.with_first(shown@, name@, all) == self@.with_first(
                    shown@,
                    name@,
                    all.skip(i as int),
                ),
            decreases results@.len() - i,
        {
            let result = &results[i];
            proof {
                assert(all.skip(i as int)[0] == result@);
                assert(all.skip(i as int).skip(1) == all.skip(i + 1));
            }
            if same(result.name.as_str(), name) {
                self.add_report(shown, &result.stats, result.old_stats.as_ref());
                return ;
            }
            i = i + 1;
        }
    }
}

/// The name of a benchmark, with the tool that it was measured by.
fn label(name: &str, tool: Tool) -> (r: String)
    ensures
        r@ == labeled(name@, tool),
{
    let mut r: String = name.to_owned();
    r.append(" [");
    r.append(tool.name());
    r.append("]");
    r
}

/// The report on one benchmark, from its counters alone.
pub fn bench_report(name: &str, stats: &BenchStats, old_stats: Option<&BenchStats>) -> (r: Vec<
    String,
>)
    requires
        stats.reportable(),
        old_stats is Some ==> old_stats->0.reportable(),
    ensures
        views(r@) == stats_report(
            name@,
            *stats,
            (match old_stats {
                Some(old) => Some(*old),
                None => None,
            }),
        ),
{
    let summary = stats.summarize();
    match old_stats {
        Some(old) => {
            let old_summary = old.summarize();
            format_benchmark_report(name, stats, old_stats, &summary, Some(&old_summary))
        },
        None => format_benchmark_report(name, stats, old_stats, &summary, None),
    }
}

/// The output where one tool is in use: the reports without headings.
pub fn display_single_tool(
    names: &[String],
    cachegrind: &Option<Vec<BenchResult>>,
    callgrind: &Option<CallgrindResults>,
) -> (r: Output)
    ensures
        r@ == single_tool(views(names@), cachegrind_view(*cachegrind), callgrind_view(*callgrind)),
{
    let mut output = Output::new();
    if let Some(results) = cachegrind {
        output.add_results(results.as_slice());
    }
    if let Some(results) = callgrind {
        output.add_entries(names, results);
    }
    output
}

/// The output where the reports of each tool stand together under a heading.
pub fn display_grouped_by_tool(
    names: &[String],
    cachegrind: &Option<Vec<BenchResult>>,
    callgrind: &Option<CallgrindResults>,
) -> (r: Output)
    ensures
        r@ == grouped_by_tool(
            views(names@),
            cachegrind_view(*cachegrind),
            callgrind_view(*callgrind),
        ),
{
    let mut output = Output::new();
    if let Some(results) = cachegrind {
        output.add_heading(Tool::Cachegrind);
        output.add_results(results.as_slice());
    }
    if let Some(results) = callgrind {
        output.add_heading(Tool::Callgrind);
        output.add_entries(names, results);
    }
    output
}

/// The output where the reports on each benchmark stand together, labeled with their tools.
pub fn display_grouped_by_benchmark(
    names: &[String],
    cachegrind: &Option<Vec<BenchResult>>,
    callgrind: &Option<CallgrindResults>,
) -> (r: Output)
    ensures
        r@ == grouped_by_benchmark(
            views(names@),
            cachegrind_view(*cachegrind),
            callgrind_view(*callgrind),
        ),
{
    let ghost all = views(names@);
    let mut output = Output::new();
    let mut i: usize = 0;
    while i < names.len()
        invariant
            i <= names@.len(),
            all == views(names@),
            output@ == grouped_by_benchmark(
                all.take(i as int),
                cachegrind_view(*cachegrind),
                callgrind_view(*callgrind),
            ),
        decreases names@.len() - i,
    {
        let name = names[i].as_str();
        proof {
            assert(all.take(i + 1).drop_last() == all.take(i as int));
            assert(all.take(i + 1).last() == name@);
        }
        if let Some(results) = cachegrind {
            output.add_first(label(name, Tool::Cachegrind).as_str(), name, results.as_slice());
        }
        if let Some(results) = callgrind {
            output.add_entry(label(name, Tool::Callgrind).as_str(), name, results);
        }
        i = i + 1;
    }
    assert(all.take(i as int) == all);
    output
}

/// The reports on `results`, one after the other.
pub open spec fn reports(results: Seq<BenchResultView>) -> Seq<Seq<char>>
    decreases results.len(),
{
    if results.len() == 0 {
        Seq::empty()
    } else {
        let last = results.last();
        reports(results.drop_last()) + stats_report(last.name, last.stats, last.old_stats)
    }
}

/// The results of Callgrind on the benchmarks `names` as far as there are any, in the order of the
/// names.
pub open spec fn entries(names: Seq<Seq<char>>, results: CallgrindResultsView) -> Seq<
    BenchResultView,
>
    decreases names.len(),
{
    if names.len() == 0 {
        Seq::empty()
    } else {
        let name = names.last();
        let before = entries(names.drop_last(), results);
        if results.stats.contains_key(name) {
            before.push(
                BenchResultView {
                    name,
                    stats: results.stats[name],
                    old_stats: if results.old_stats.contains_key(name) {
                        Some(results.old_stats[name])
                    } else {
                        None
                    },
                },
            )
        } else {
            before
        }
    }
}

/// Whether each of the results can be reported on.
pub open spec fn all_reportable(results: Seq<BenchResultView>) -> bool {
    forall|i: int|
        0 <= i < results.len() ==> #[trigger] result_reportable(
            results[i].stats,
            results[i].old_stats,
        )
}

/// A report has seven lines: the name, the five values, and an empty line.
pub proof fn law_report_has_seven_lines(
    name: Seq<char>,
    stats: CachegrindStats,
    old_stats: Option<CachegrindStats>,
)
    ensures
        stats_report(name, stats, old_stats).len() == 7,
        stats_report(name, stats, old_stats)[0] == name,
        stats_report(name, stats, old_stats)[6] == Seq::<char>::empty(),
{
}

/// A benchmark that was measured for the first time is reported on without changes. A value that is
/// what it was before is said not to have changed, and where it was zero before there is no
/// percentage.
pub proof fn law_change_is_shown_against_the_run_before(label: Seq<char>, value: int)
    ensures
        value_line(label, value, None) == label + padded(decimal(value as nat), 15),
        value > 0 ==> value_line(label, value, Some(value)) == value_line(label, value, None)
            + " (No change)"@,
        value_line(label, value, Some(0)) == value_line(label, value, None) + " (N/A)"@,
{
    assert(value_line(label, value, None) == label + padded(decimal(value as nat), 15));
    if value > 0 {
        assert(value_line(label, value, Some(value)) == value_line(label, value, None)
            + " (No change)"@);
    }
    assert(value_line(label, value, Some(0)) == value_line(label, value, None) + " (N/A)"@);
}

/// Reports on results are shown in full exactly where each of them can be reported on, and then one
/// after the other.
pub proof fn law_results_are_shown_in_full(output: OutputView, results: Seq<BenchResultView>)
    requires
        output.complete,
    ensures
        output.with_results(results).complete <==> all_reportable(results),
        all_reportable(results) ==> output.with_results(results).lines == output.lines + reports(
            results,
        ),
    decreases results.len(),
{
    if results.len() == 0 {
        assert(output.lines == output.lines + reports(results));
    } else {
        let fewer = results.drop_last();
        let last = results.last();
        law_results_are_shown_in_full(output, fewer);
        assert(all_reportable(results) <==> all_reportable(fewer) && result_reportable(
            last.stats,
            last.old_stats,
        )) by {
            if all_reportable(results) {
                assert forall|i: int| 0 <= i < fewer.len() implies #[trigger] result_reportable(
                    fewer[i].stats,
                    fewer[i].old_stats,
                ) by {
                    assert(result_reportable(results[i].stats, results[i].old_stats));
                }
                assert(result_reportable(
                    results[results.len() - 1].stats,
                    results[results.len() - 1].old_stats,
                ));
            }
            if all_reportable(fewer) && result_reportable(last.stats, last.old_stats) {
                assert forall|i: int| 0 <= i < results.len() implies #[trigger] result_reportable(
                    results[i].stats,
                    results[i].old_stats,
                ) by {
                    if i < fewer.len() {
                        assert(result_reportable(fewer[i].stats, fewer[i].old_stats));
                    }
                }
            }
        }
        assert(output.lines + reports(fewer) + stats_report(last.name, last.stats, last.old_stats)
            == output.lines + reports(results));
    }
}

/// The results of Callgrind are shown like those of Cachegrind: the benchmarks that it gave
/// counters for, in their order.
pub proof fn law_entries_are_results(
    output: OutputView,
    names: Seq<Seq<char>>,
    results: CallgrindResultsView,
)
    ensures
        output.with_entries(names, results) == output.with_results(entries(names, results)),
    decreases names.len(),
{
    if names.len() > 0 {
        law_entries_are_results(output, names.drop_last(), results);
        let before = entries(names.drop_last(), results);
        if results.stats.contains_key(names.last()) {
            assert(entries(names, results).drop_last() == before);
        }
    }
}

/// Where both tools gave results, each has its reports under its own heading, as they would stand
/// without the other tool.
pub proof fn law_tools_have_their_headings(
    names: Seq<Seq<char>>,
    cachegrind: Seq<BenchResultView>,
    callgrind: CallgrindResultsView,
)
    requires
        all_reportable(cachegrind),
        all_reportable(entries(names, callgrind)),
    ensures
        grouped_by_tool(names, Some(cachegrind), Some(callgrind)) == (OutputView {
            lines: seq!["\n=== cachegrind ==="@] + single_tool(names, Some(cachegrind), None).lines
                + seq!["\n=== callgrind ==="@] + single_tool(names, None, Some(callgrind)).lines,
            complete: true,
        }),
{
    reveal_strlit("\n=== ");
    reveal_strlit(" ===");
    reveal_strlit("cachegrind");
    reveal_strlit("callgrind");
    reveal_strlit("\n=== cachegrind ===");
    reveal_strlit("\n=== callgrind ===");
    assert("\n=== "@ + Tool::Cachegrind.text() + " ==="@ == "\n=== cachegrind ==="@);
    assert("\n=== "@ + Tool::Callgrind.text() + " ==="@ == "\n=== callgrind ==="@);
    let start = OutputView::start();
    let first = start.with_heading(Tool::Cachegrind);
    let second = first.with_results(cachegrind);
    let third = second.with_heading(Tool::Callgrind);
    law_results_are_shown_in_full(start, cachegrind);
    law_results_are_shown_in_full(first, cachegrind);
    law_entries_are_results(start, names, callgrind);
    law_entries_are_results(third, names, callgrind);
    law_results_are_shown_in_full(start, entries(names, callgrind));
    law_results_are_shown_in_full(third, entries(names, callgrind));
    assert(start.lines + reports(cachegrind) == reports(cachegrind));
    assert(start.lines + reports(entries(names, callgrind)) == reports(entries(names, callgrind)));
    assert(grouped_by_tool(names, Some(cachegrind), Some(callgrind)).lines == seq![
        "\n=== cachegrind ==="@,
    ] + reports(cachegrind) + seq!["\n=== callgrind ==="@] + reports(entries(names, callgrind)));
}

/// Grouped by benchmark, each benchmark is reported on with its own results: first those of
/// Cachegrind, then those of Callgrind, each labeled with its tool.
pub proof fn law_benchmarks_have_their_own_results(
    output: OutputView,
    names: Seq<Seq<char>>,
    i: int,
    cachegrind: Seq<BenchResultView>,
    callgrind: CallgrindResultsView,
)
    requires
        0 <= i < names.len(),
        names.no_duplicates(),
        cachegrind.map_values(|result: BenchResultView| result.name) == names,
        callgrind.stats.contains_key(names[i]),
    ensures
        output.with_benchmark(names[i], Some(cachegrind), Some(callgrind)) == output.with_report(
            names[i] + " [cachegrind]"@,
            cachegrind[i].stats,
            cachegrind[i].old_stats,
        ).with_report(
            names[i] + " [callgrind]"@,
            callgrind.stats[names[i]],
            if callgrind.old_stats.contains_key(names[i]) {
                Some(callgrind.old_stats[names[i]])
            } else {
                None
            },
        ),
{
    reveal_strlit(" [");
    reveal_strlit("]");
    reveal_strlit("cachegrind");
    reveal_strlit("callgrind");
    reveal_strlit(" [cachegrind]");
    reveal_strlit(" [callgrind]");
    let name = names[i];
    assert(labeled(name, Tool::Cachegrind) == name + " [cachegrind]"@);
    assert(labeled(name, Tool::Callgrind) == name + " [callgrind]"@);
    assert forall|j: int| 0 <= j < i implies cachegrind[j].name != name by {
        assert(cachegrind.map_values(|result: BenchResultView| result.name)[j] == names[j]);
    }
    assert(cachegrind.map_values(|result: BenchResultView| result.name)[i] == name);
    lemma_first_of_name(output, labeled(name, Tool::Cachegrind), name, cachegrind, i);
}

/// The first result of a benchmark is the one that is shown.
proof fn lemma_first_of_name(
    output: OutputView,
    shown: Seq<char>,
    name: Seq<char>,
    results: Seq<BenchResultView>,
    i: int,
)
    requires
        0 <= i < results.len(),
        results[i].name == name,
        forall|j: int| 0 <= j < i ==> (#[trigger] results[j]).name != name,
    ensures
        output.with_first(shown, name, results) == output.with_report(
            shown,
            results[i].stats,
            results[i].old_stats,
        ),
    decreases i,
{
    if i > 0 {
        let rest = results.skip(1);
        assert(results[0].name != name);
        assert forall|j: int| 0 <= j < i - 1 implies (#[trigger] rest[j]).name != name by {
            assert(rest[j] == results[j + 1]);
        }
        lemma_first_of_name(output, shown, name, rest, i - 1);
    }
}

/// A value is shown behind its label and, where it is known, its value of the run before is compared
/// with it.
pub proof fn law_values_are_shown_with_their_change(label: Seq<char>, value: nat, old_value: nat)
    ensures
        value_line(label, value as int, None) == label + padded(decimal(value), 15),
        value_line(label, value as int, Some(old_value as int)) == value_line(
            label,
            value as int,
            None,
        ) + difference_text(value, old_value),
{
    assert(value_line(label, value as int, None) == label + padded(decimal(value), 15));
    assert(value_line(label, value as int, Some(old_value as int)) == value_line(
        label,
        value as int,
        None,
    ) + difference_text(value, old_value));
}

/// What each line of a report shows: instructions, accesses that the first level answered, accesses
/// that the last level answered, accesses that main memory answered, and cycles, each beside the
/// same quantity of the run before.
pub proof fn law_report_shows_each_quantity(
    name: Seq<char>,
    stats: CachegrindStats,
    old_stats: CachegrindStats,
    summary: CachegrindSummary,
    old_summary: CachegrindSummary,
)
    ensures
        ({
            let first = report_lines(name, stats, None, summary, None);
            let later = report_lines(name, stats, Some(old_stats), summary, Some(old_summary));
            let cycles = summary.l1_hits + 5 * summary.l3_hits + 35 * summary.ram_hits;
            let old_cycles = old_summary.l1_hits + 5 * old_summary.l3_hits + 35
                * old_summary.ram_hits;
            &&& first.len() == 7 && later.len() == 7
            &&& first[0] == name && later[0] == name
            &&& first[6].len() == 0 && later[6].len() == 0
            &&& first[1] == value_line(
                "  Instructions:     "@,
                stats.instruction_reads as int,
                None,
            )
            &&& first[2] == value_line("  L1 Accesses:      "@, summary.l1_hits as int, None)
            &&& first[3] == value_line("  L2 Accesses:      "@, summary.l3_hits as int, None)
            &&& first[4] == value_line("  RAM Accesses:     "@, summary.ram_hits as int, None)
            &&& first[5] == value_line("  Estimated Cycles: "@, cycles, None)
            &&& later[1] == value_line(
                "  Instructions:     "@,
                stats.instruction_reads as int,
                Some(old_stats.instruction_reads as int),
            )
            &&& later[2] == value_line(
                "  L1 Accesses:      "@,
                summary.l1_hits as int,
                Some(old_summary.l1_hits as int),
            )
            &&& later[3] == value_line(
                "  L2 Accesses:      "@,
                summary.l3_hits as int,
                Some(old_summary.l3_hits as int),
            )
            &&& later[4] == value_line(
                "  RAM Accesses:     "@,
                summary.ram_hits as int,
                Some(old_summary.ram_hits as int),
            )
            &&& later[5] == value_line("  Estimated Cycles: "@, cycles, Some(old_cycles))
        }),
{
}

/// The counters and the summary of a report are each compared on their own: where only one of them
/// is known of the run before, only its quantities are compared.
pub proof fn law_report_compares_what_is_known(
    name: Seq<char>,
    stats: CachegrindStats,
    old_stats: Option<CachegrindStats>,
    summary: CachegrindSummary,
    old_summary: Option<CachegrindSummary>,
)
    ensures
        ({
            let lines = report_lines(name, stats, old_stats, summary, old_summary);
            let by_stats = report_lines(name, stats, old_stats, summary, None);
            let by_summary = report_lines(name, stats, None, summary, old_summary);
            &&& lines.len() == 7
            &&& lines[0] == name && lines[6].len() == 0
            &&& lines[1] == by_stats[1]
            &&& forall|i: int| 2 <= i <= 5 ==> #[trigger] lines[i] == by_summary[i]
        }),
{
}

/// The report on a benchmark is made from its counters alone: what the levels answered and the
/// cycles follow from them, for this run and for the run before.
pub proof fn law_report_follows_from_the_counters(
    name: Seq<char>,
    stats: CachegrindStats,
    old_stats: Option<CachegrindStats>,
)
    ensures
        old_stats matches Some(old) ==> stats_report(name, stats, old_stats) == report_lines(
            name,
            stats,
            old_stats,
            stats.summary(),
            Some(old.summary()),
        ),
        old_stats is None ==> stats_report(name, stats, old_stats) == report_lines(
            name,
            stats,
            None,
            stats.summary(),
            None,
        ),
{
}

/// A result can be reported on where its counters can, and those of the run before as well.
pub proof fn law_result_is_reportable_where_its_counters_are(
    stats: CachegrindStats,
    old: CachegrindStats,
)
    ensures
        result_reportable(stats, None) <==> stats.reportable(),
        result_reportable(stats, Some(old)) <==> stats.reportable() && old.reportable(),
{
}

/// Reports stand one after the other, seven lines each, in the order of their results.
pub proof fn law_reports_stand_one_after_the_other(results: Seq<BenchResultView>, i: int)
    requires
        0 <= i < results.len(),
    ensures
        reports(results).len() == 7 * results.len(),
        reports(results).subrange(7 * i, 7 * i + 7) == stats_report(
            results[i].name,
            results[i].stats,
            results[i].old_stats,
        ),
    decreases results.len(),
{
    let fewer = results.drop_last();
    let last = results.last();
    let report = stats_report(last.name, last.stats, last.old_stats);
    law_report_has_seven_lines(last.name, last.stats, last.old_stats);
    if fewer.len() > 0 {
        let j = if i < fewer.len() {
            i
        } else {
            0
        };
        law_reports_stand_one_after_the_other(fewer, j);
    }
    assert(reports(results) == reports(fewer) + report);
    if i < fewer.len() {
        assert(reports(results).subrange(7 * i, 7 * i + 7) == reports(fewer).subrange(
            7 * i,
            7 * i + 7,
        ));
    } else {
        assert(reports(results).subrange(7 * i, 7 * i + 7) == report);
    }
}

/// The output ends in front of the first result that cannot be reported on.
pub proof fn law_output_ends_at_the_first_contradiction(
    output: OutputView,
    results: Seq<BenchResultView>,
    k: int,
)
    requires
        output.complete,
        0 <= k < results.len(),
        all_reportable(results.take(k)),
        !result_reportable(results[k].stats, results[k].old_stats),
    ensures
        output.with_results(results) == (OutputView {
            lines: output.lines + reports(results.take(k)),
            complete: false,
        }),
    decreases results.len(),
{
    let fewer = results.drop_last();
    if k == fewer.len() {
        assert(results.take(k) == fewer);
        law_results_are_shown_in_full(output, fewer);
    } else {
        assert(fewer.take(k) == results.take(k));
        law_output_ends_at_the_first_contradiction(output, fewer, k);
    }
}

/// To an output that has ended nothing is added.
pub proof fn law_ended_output_stays(
    output: OutputView,
    tool: Tool,
    results: Seq<BenchResultView>,
    names: Seq<Seq<char>>,
    callgrind: CallgrindResultsView,
)
    requires
        !output.complete,
    ensures
        output.with_heading(tool) == output,
        output.with_results(results) == output,
        output.with_entries(names, callgrind) == output,
    decreases results.len(), names.len(),
{
    if results.len() > 0 {
        law_ended_output_stays(output, tool, results.drop_last(), names, callgrind);
    } else if names.len() > 0 {
        law_ended_output_stays(output, tool, results, names.drop_last(), callgrind);
    }
    if names.len() > 0 && results.len() > 0 {
        law_ended_output_stays(output, tool, Seq::empty(), names, callgrind);
    }
}

/// A heading is one line with the name of the tool.
pub proof fn law_heading_is_a_line(output: OutputView)
    requires
        output.complete,
    ensures
        output.with_heading(Tool::Cachegrind) == (OutputView {
            lines: output.lines.push("\n=== cachegrind ==="@),
            complete: true,
        }),
        output.with_heading(Tool::Callgrind) == (OutputView {
            lines: output.lines.push("\n=== callgrind ==="@),
            complete: true,
        }),
{
    reveal_strlit("\n=== ");
    reveal_strlit(" ===");
    reveal_strlit("cachegrind");
    reveal_strlit("callgrind");
    reveal_strlit("\n=== cachegrind ===");
    reveal_strlit("\n=== callgrind ===");
    assert("\n=== "@ + Tool::Cachegrind.text() + " ==="@ == "\n=== cachegrind ==="@);
    assert("\n=== "@ + Tool::Callgrind.text() + " ==="@ == "\n=== callgrind ==="@);
}

/// Which results are shown, and where: those of Cachegrind first, then those of Callgrind, each
/// under its heading where the output is grouped by tool. A tool without results has no heading.
pub proof fn law_tools_are_shown_in_their_order(
    names: Seq<Seq<char>>,
    cachegrind: Seq<BenchResultView>,
    callgrind: CallgrindResultsView,
)
    ensures
        ({
            let start = OutputView { lines: Seq::empty(), complete: true };
            let none = OutputView { lines: Seq::empty(), complete: true };
            let entries = entries(names, callgrind);
            &&& single_tool(names, None, None) == none
            &&& single_tool(names, Some(cachegrind), None) == start.with_results(cachegrind)
            &&& single_tool(names, None, Some(callgrind)) == start.with_results(entries)
            &&& single_tool(names, Some(cachegrind), Some(callgrind)) == start.with_results(
                cachegrind,
            ).with_results(entries)
            &&& grouped_by_tool(names, None, None) == none
            &&& grouped_by_tool(names, Some(cachegrind), None) == start.with_heading(
                Tool::Cachegrind,
            ).with_results(cachegrind)
            &&& grouped_by_tool(names, None, Some(callgrind)) == start.with_heading(
                Tool::Callgrind,
            ).with_results(entries)
            &&& grouped_by_tool(names, Some(cachegrind), Some(callgrind)) == start.with_heading(
                Tool::Cachegrind,
            ).with_results(cachegrind).with_heading(Tool::Callgrind).with_results(entries)
        }),
{
    let start = OutputView::start();
    let first = start.with_results(cachegrind);
    let headed = start.with_heading(Tool::Cachegrind).with_results(cachegrind);
    law_entries_are_results(start, names, callgrind);
    law_entries_are_results(first, names, callgrind);
    law_entries_are_results(start.with_heading(Tool::Callgrind), names, callgrind);
    law_entries_are_results(headed.with_heading(Tool::Callgrind), names, callgrind);
}

/// Where the benchmark `name` stands first in `results`.
pub open spec fn first_at(results: Seq<BenchResultView>, name: Seq<char>, i: int) -> bool {
    &&& 0 <= i < results.len()
    &&& results[i].name == name
    &&& forall|j: int| 0 <= j < i ==> (#[trigger] results[j]).name != name
}

/// The results of both tools on the benchmark `name`, as far as there are any, with its name
/// labeled.
pub open spec fn labeled_results(
    name: Seq<char>,
    cachegrind: Option<Seq<BenchResultView>>,
    callgrind: Option<CallgrindResultsView>,
) -> Seq<BenchResultView> {
    (match cachegrind {
        Some(results) => if exists|i: int| first_at(results, name, i) {
            let result = results[choose|i: int| first_at(results, name, i)];
            seq![BenchResultView { name: name + " [cachegrind]"@, ..result }]
        } else {
            Seq::empty()
        },
        None => Seq::empty(),
    }) + (match callgrind {
        Some(results) => if results.stats.contains_key(name) {
            seq![
                BenchResultView {
                    name: name + " [callgrind]"@,
                    stats: results.stats[name],
                    old_stats: if results.old_stats.contains_key(name) {
                        Some(results.old_stats[name])
                    } else {
                        None
                    },
                },
            ]
        } else {
            Seq::empty()
        },
        None => Seq::empty(),
    })
}

/// The results of both tools on all benchmarks, one benchmark after the other.
pub open spec fn all_labeled_results(
    names: Seq<Seq<char>>,
    cachegrind: Option<Seq<BenchResultView>>,
    callgrind: Option<CallgrindResultsView>,
) -> Seq<BenchResultView> {
    names.map_values(|name: Seq<char>| labeled_results(name, cachegrind, callgrind)).flatten()
}

/// Results can be shown in two parts.
proof fn lemma_results_in_two_parts(
    output: OutputView,
    first: Seq<BenchResultView>,
    second: Seq<BenchResultView>,
)
    ensures
        output.with_results(first + second) == output.with_results(first).with_results(second),
    decreases second.len(),
{
    if second.len() == 0 {
        assert(first + second == first);
    } else {
        assert((first + second).drop_last() == first + second.drop_last());
        lemma_results_in_two_parts(output, first, second.drop_last());
    }
}

/// One result is shown by its report.
proof fn lemma_one_result(output: OutputView, result: BenchResultView)
    ensures
        output.with_results(seq![result]) == output.with_report(
            result.name,
            result.stats,
            result.old_stats,
        ),
{
    assert(seq![result].drop_last() == Seq::<BenchResultView>::empty());
    assert(output.with_results(Seq::empty()) == output);
}

/// A benchmark that does not occur is not shown.
proof fn lemma_no_result(
    output: OutputView,
    shown: Seq<char>,
    name: Seq<char>,
    results: Seq<BenchResultView>,
)
    requires
        forall|j: int| 0 <= j < results.len() ==> (#[trigger] results[j]).name != name,
    ensures
        output.with_first(shown, name, results) == output,
    decreases results.len(),
{
    if results.len() > 0 {
        assert(results[0].name != name);
        let rest = results.skip(1);
        assert forall|j: int| 0 <= j < rest.len() implies (#[trigger] rest[j]).name != name by {
            assert(rest[j] == results[j + 1]);
        }
        lemma_no_result(output, shown, name, rest);
    }
}

/// A benchmark that occurs has a first place.
proof fn lemma_first_place(results: Seq<BenchResultView>, name: Seq<char>, i: int)
    requires
        0 <= i < results.len(),
        results[i].name == name,
    ensures
        exists|k: int| first_at(results, name, k),
    decreases i,
{
    if forall|j: int| 0 <= j < i ==> (#[trigger] results[j]).name != name {
        assert(first_at(results, name, i));
    } else {
        let j = choose|j: int| 0 <= j < i && (#[trigger] results[j]).name == name;
        lemma_first_place(results, name, j);
    }
}

/// Grouped by benchmark, every benchmark is shown, in the order of the benchmarks, with what there
/// is of both tools: its first result of Cachegrind, and then its result of Callgrind.
pub proof fn law_grouping_shows_every_benchmark(
    names: Seq<Seq<char>>,
    cachegrind: Option<Seq<BenchResultView>>,
    callgrind: Option<CallgrindResultsView>,
)
    ensures
        grouped_by_benchmark(names, cachegrind, callgrind) == (OutputView {
            lines: Seq::empty(),
            complete: true,
        }).with_results(all_labeled_results(names, cachegrind, callgrind)),
    decreases names.len(),
{
    let parts = names.map_values(|name: Seq<char>| labeled_results(name, cachegrind, callgrind));
    let start = OutputView { lines: Seq::<Seq<char>>::empty(), complete: true };
    if names.len() == 0 {
        assert(parts.flatten() == Seq::<BenchResultView>::empty());
        assert(start.with_results(Seq::empty()) == start);
    } else {
        let fewer = names.drop_last();
        law_grouping_shows_every_benchmark(fewer, cachegrind, callgrind);
        assert(parts.drop_last() == fewer.map_values(
            |name: Seq<char>| labeled_results(name, cachegrind, callgrind),
        ));
        parts.lemma_flatten_and_flatten_alt_are_equivalent();
        parts.drop_last().lemma_flatten_and_flatten_alt_are_equivalent();
        assert(parts.flatten() == parts.drop_last().flatten() + parts.last());
        lemma_results_in_two_parts(start, parts.drop_last().flatten(), parts.last());
        lemma_benchmark_is_its_results(
            grouped_by_benchmark(fewer, cachegrind, callgrind),
            names.last(),
            cachegrind,
            callgrind,
        );
    }
}

/// A benchmark is shown by its labeled results.
proof fn lemma_benchmark_is_its_results(
    output: OutputView,
    name: Seq<char>,
    cachegrind: Option<Seq<BenchResultView>>,
    callgrind: Option<CallgrindResultsView>,
)
    ensures
        output.with_benchmark(name, cachegrind, callgrind) == output.with_results(
            labeled_results(name, cachegrind, callgrind),
        ),
{
    law_labels_name_the_tool(name);
    let first = labeled_results(name, cachegrind, None);
    let second = labeled_results(name, None, callgrind);
    assert(labeled_results(name, cachegrind, callgrind) == first + second);
    lemma_results_in_two_parts(output, first, second);
    let shown = output.with_results(first);
    assert(output.with_benchmark(name, cachegrind, None) == shown) by {
        if let Some(results) = cachegrind {
            if exists|i: int| first_at(results, name, i) {
                let i = choose|i: int| first_at(results, name, i);
                let result = BenchResultView { name: name + " [cachegrind]"@, ..results[i] };
                lemma_first_of_name(output, labeled(name, Tool::Cachegrind), name, results, i);
                assert(first == seq![result]);
                lemma_one_result(output, result);
            } else {
                assert forall|j: int| 0 <= j < results.len() implies (#[trigger] results[j]).name
                    != name by {
                    if results[j].name == name {
                        lemma_first_place(results, name, j);
                    }
                }
                lemma_no_result(output, labeled(name, Tool::Cachegrind), name, results);
                assert(first == Seq::<BenchResultView>::empty());
            }
        } else {
            assert(first == Seq::<BenchResultView>::empty());
        }
    }
    assert(shown.with_results(second) == shown.with_benchmark(name, None, callgrind)) by {
        if let Some(results) = callgrind {
            if results.stats.contains_key(name) {
                assert(second.len() == 1);
                assert(second == seq![second[0]]);
                lemma_one_result(shown, second[0]);
            } else {
                assert(second == Seq::<BenchResultView>::empty());
            }
        } else {
            assert(second == Seq::<BenchResultView>::empty());
        }
    }
}

/// A label is the name of the tool in brackets.
pub proof fn law_labels_name_the_tool(name: Seq<char>)
    ensures
        labeled(name, Tool::Cachegrind) == name + " [cachegrind]"@,
        labeled(name, Tool::Callgrind) == name + " [callgrind]"@,
{
    reveal_strlit(" [");
    reveal_strlit("]");
    reveal_strlit("cachegrind");
    reveal_strlit("callgrind");
    reveal_strlit(" [cachegrind]");
    reveal_strlit(" [callgrind]");
    assert(labeled(name, Tool::Cachegrind) == name + " [cachegrind]"@);
    assert(labeled(name, Tool::Callgrind) == name + " [callgrind]"@);
}

/// Where both tools gave a result for each of the differently named benchmarks and all of them can be
/// reported on, all are shown: the reports of the benchmark at `i` are the ones at `2 * i` and
/// `2 * i + 1`, and there are no others.
pub proof fn law_grouping_shows_both_tools(
    names: Seq<Seq<char>>,
    cachegrind: Seq<BenchResultView>,
    callgrind: CallgrindResultsView,
    i: int,
)
    requires
        names.no_duplicates(),
        cachegrind.map_values(|result: BenchResultView| result.name) == names,
        forall|k: int|
            0 <= k < names.len() ==> callgrind.stats.contains_key(#[trigger] names[k]),
        all_reportable(cachegrind),
        all_reportable(entries(names, callgrind)),
        0 <= i < names.len(),
    ensures
        ({
            let output = grouped_by_benchmark(names, Some(cachegrind), Some(callgrind));
            &&& output.complete
            &&& output.lines.len() == 14 * names.len()
            &&& output.lines.subrange(14 * i, 14 * i + 7) == stats_report(
                names[i] + " [cachegrind]"@,
                cachegrind[i].stats,
                cachegrind[i].old_stats,
            )
            &&& output.lines.subrange(14 * i + 7, 14 * i + 14) == stats_report(
                names[i] + " [callgrind]"@,
                callgrind.stats[names[i]],
                if callgrind.old_stats.contains_key(names[i]) {
                    Some(callgrind.old_stats[names[i]])
                } else {
                    None
                },
            )
        }),
{
    let n = names.len();
    assert forall|k: int| 0 <= k < n implies cachegrind[k].name == names[k] by {
        assert(cachegrind.map_values(|result: BenchResultView| result.name)[k] == names[k]);
    }
    lemma_labeled_results_in_order(names, cachegrind, callgrind, n);
    assert(names.take(n as int) == names);
    let results = all_labeled_results(names, Some(cachegrind), Some(callgrind));
    lemma_entries_of_all(names, callgrind, n);
    let reported = entries(names, callgrind);
    assert forall|j: int| 0 <= j < results.len() implies #[trigger] result_reportable(
        results[j].stats,
        results[j].old_stats,
    ) by {
        let k = j / 2;
        if j % 2 == 0 {
            assert(j == 2 * k);
            assert(result_reportable(cachegrind[k].stats, cachegrind[k].old_stats));
        } else {
            assert(j == 2 * k + 1);
            assert(result_reportable(reported[k].stats, reported[k].old_stats));
        }
    }
    let start = OutputView { lines: Seq::<Seq<char>>::empty(), complete: true };
    law_grouping_shows_every_benchmark(names, Some(cachegrind), Some(callgrind));
    law_results_are_shown_in_full(start, results);
    assert(start.lines + reports(results) == reports(results));
    law_reports_stand_one_after_the_other(results, 2 * i);
    law_reports_stand_one_after_the_other(results, 2 * i + 1);
}

/// The result of Callgrind on each of the benchmarks stands at its place.
proof fn lemma_entries_of_all(names: Seq<Seq<char>>, callgrind: CallgrindResultsView, n: nat)
    requires
        n <= names.len(),
        forall|k: int|
            0 <= k < names.len() ==> callgrind.stats.contains_key(#[trigger] names[k]),
    ensures
        entries(names.take(n as int), callgrind).len() == n,
        forall|k: int|
            #![trigger entries(names.take(n as int), callgrind)[k]]
            0 <= k < n ==> {
                let entry = entries(names.take(n as int), callgrind)[k];
                &&& entry.stats == callgrind.stats[names[k]]
                &&& entry.old_stats == (if callgrind.old_stats.contains_key(names[k]) {
                    Some(callgrind.old_stats[names[k]])
                } else {
                    None
                })
            },
        n == names.len() ==> names.take(n as int) == names,
    decreases n,
{
    assert(n == names.len() ==> names.take(n as int) == names);
    if n > 0 {
        lemma_entries_of_all(names, callgrind, (n - 1) as nat);
        let some = names.take(n as int);
        assert(some.drop_last() == names.take(n - 1));
        assert(some.last() == names[n - 1]);
        assert(callgrind.stats.contains_key(names[n - 1]));
    }
}

/// The labeled results of the first `n` benchmarks stand in pairs.
proof fn lemma_labeled_results_in_order(
    names: Seq<Seq<char>>,
    cachegrind: Seq<BenchResultView>,
    callgrind: CallgrindResultsView,
    n: nat,
)
    requires
        n <= names.len(),
        names.no_duplicates(),
        cachegrind.len() == names.len(),
        forall|k: int| 0 <= k < names.len() ==> (#[trigger] cachegrind[k]).name == names[k],
        forall|k: int|
            0 <= k < names.len() ==> callgrind.stats.contains_key(#[trigger] names[k]),
    ensures
        ({
            let results = all_labeled_results(
                names.take(n as int),
                Some(cachegrind),
                Some(callgrind),
            );
            &&& results.len() == 2 * n
            &&& forall|k: int|
                #![trigger names[k]]
                0 <= k < n ==> {
                    &&& results[2 * k] == (BenchResultView {
                        name: names[k] + " [cachegrind]"@,
                        ..cachegrind[k]
                    })
                    &&& results[2 * k + 1] == (BenchResultView {
                        name: names[k] + " [callgrind]"@,
                        stats: callgrind.stats[names[k]],
                        old_stats: if callgrind.old_stats.contains_key(names[k]) {
                            Some(callgrind.old_stats[names[k]])
                        } else {
                            None
                        },
                    })
                }
        }),
    decreases n,
{
    let label = |name: Seq<char>| labeled_results(name, Some(cachegrind), Some(callgrind));
    let some = names.take(n as int);
    let parts = some.map_values(label);
    if n == 0 {
        assert(parts.flatten() == Seq::<BenchResultView>::empty());
    } else {
        let name = names[n - 1];
        lemma_labeled_results_in_order(names, cachegrind, callgrind, (n - 1) as nat);
        assert(some.drop_last() == names.take(n - 1));
        assert(parts.drop_last() == names.take(n - 1).map_values(label));
        parts.lemma_flatten_and_flatten_alt_are_equivalent();
        parts.drop_last().lemma_flatten_and_flatten_alt_are_equivalent();
        assert(parts.flatten() == parts.drop_last().flatten() + parts.last());
        assert(parts.last() == labeled_results(name, Some(cachegrind), Some(callgrind)));
        assert(first_at(cachegrind, name, n - 1));
        let i = choose|i: int| first_at(cachegrind, name, i);
        assert(cachegrind[i].name == names[i]);
        assert(i == n - 1);
        assert(callgrind.stats.contains_key(name));
        assert(parts.last().len() == 2);
    }
}

/// Results and output are modelled as they are.
pub proof fn law_results_are_modelled_as_they_are(
    results: Vec<BenchResult>,
    callgrind: CallgrindResults,
    output: Output,
    i: int,
)
    requires
        0 <= i < results@.len(),
    ensures
        cachegrind_view(Some(results)) is Some,
        cachegrind_view(None) is None,
        callgrind_view(None) is None,
        cachegrind_view(Some(results))->0.len() == results@.len(),
        cachegrind_view(Some(results))->0[i].name == results@[i].name@,
        cachegrind_view(Some(results))->0[i].stats == results@[i].stats,
        cachegrind_view(Some(results))->0[i].old_stats == results@[i].old_stats,
        callgrind_view(Some(callgrind)) is Some,
        callgrind_view(Some(callgrind))->0.stats == callgrind.stats@,
        callgrind_view(Some(callgrind))->0.old_stats == callgrind.old_stats@,
        output@.lines == views(output.lines@),
        output@.complete == output.complete,
{
}

} // verus!
