//! The output files of the profilers.

use crate::error::RunnerError;
#[allow(unused_imports)]
use crate::error::RunnerErrorView;
use crate::number::{parse_u64, NumberError};
#[allow(unused_imports)]
use crate::number::{
    all_digits, decimal, law_other_texts_are_no_unsigned_numbers, law_unsigned_numbers_are_digits,
    law_unsigned_round_trip, unsigned_value,
};
#[allow(unused_imports)]
use crate::stats::{counters, first_missing, required_events, CachegrindStats};
use crate::stats::{BenchStats, BenchStatsMap, EventMap};
use crate::text::{split_words, strip_prefix};
#[allow(unused_imports)]
use crate::text::{lemma_words_concat, stripped, views, whitespace, word_len, words};
use vstd::prelude::*;

verus! {

/// What could be read of a file.
#[derive(Clone, Debug)]
pub struct FileContents {
    /// The lines, up to the end of the file or to the first one that could not be read.
    pub lines: Vec<String>,
    /// Why reading ended before the end of the file.
    pub error: Option<String>,
}

/// The model of `FileContents`.
pub struct ContentsView {
    pub lines: Seq<Seq<char>>,
    pub error: Option<Seq<char>>,
}

impl View for FileContents {
    type V = ContentsView;

    open spec fn view(&self) -> ContentsView {
        ContentsView {
            lines: views(self.lines@),
            error: match self.error {
                Some(text) => Some(text@),
                None => None,
            },
        }
    }
}

/// A value that is no number.
pub struct InvalidValue {
    pub value: Seq<char>,
    pub event: Seq<char>,
    pub error: NumberError,
}

/// The complaint about an output file of `tool`.
pub open spec fn complaint(tool: Seq<char>, path: Seq<char>, detail: Seq<char>) -> RunnerErrorView {
    RunnerErrorView::ParseError(
        "Unable to parse "@ + tool + " output file "@ + path + ": "@ + detail,
    )
}

/// What the complaint about a value says.
pub open spec fn invalid_value(invalid: InvalidValue) -> Seq<char> {
    "value '"@ + invalid.value + "' for event '"@ + invalid.event + "' is invalid ("@
        + invalid.error.text() + ")"@
}

/// What follows `prefix` in the last line that begins with it.
pub open spec fn last_after(lines: Seq<Seq<char>>, prefix: Seq<char>) -> Option<Seq<char>>
    decreases lines.len(),
{
    if lines.len() == 0 {
        None
    } else if stripped(lines.last(), prefix) is Some {
        stripped(lines.last(), prefix)
    } else {
        last_after(lines.drop_last(), prefix)
    }
}

/// The number that stands at `i`. Zeros at the end may be left out.
pub open spec fn value_at(values: Seq<Seq<char>>, i: int) -> Result<nat, NumberError> {
    if i < values.len() {
        unsigned_value(values[i])
    } else {
        Ok(0)
    }
}

/// The first `n` of `names` with the numbers that stand at their places; of a name that occurs
/// more than once, the last number counts. The first value that is no number is an error.
pub open spec fn read_values(names: Seq<Seq<char>>, values: Seq<Seq<char>>, n: nat) -> Result<
    Map<Seq<char>, u64>,
    InvalidValue,
>
    decreases n,
{
    if n == 0 {
        Ok(Map::empty())
    } else {
        match read_values(names, values, (n - 1) as nat) {
            Err(invalid) => Err(invalid),
            Ok(events) => match value_at(values, n - 1) {
                Ok(value) => Ok(events.insert(names[n - 1], value as u64)),
                Err(error) => Err(
                    InvalidValue { value: values[n - 1], event: names[n - 1], error },
                ),
            },
        }
    }
}

/// The counters that the events give, with a missing event as a parse error.
pub open spec fn checked_counters(events: Map<Seq<char>, u64>) -> Result<
    CachegrindStats,
    RunnerErrorView,
> {
    match counters(events) {
        Ok(stats) => Ok(stats),
        Err(message) => Err(RunnerErrorView::ParseError(message)),
    }
}

/// The counters in an output file of Cachegrind. The last `events: ` line names the events, and
/// the last `summary: ` line holds one value for each of them.
pub open spec fn cachegrind_stats(contents: ContentsView, path: Seq<char>) -> Result<
    CachegrindStats,
    RunnerErrorView,
> {
    let tool = "cachegrind"@;
    match contents.error {
        Some(error) => Err(RunnerErrorView::Io(error)),
        None => match last_after(contents.lines, "events: "@) {
            None => Err(complaint(tool, path, "missing events line"@)),
            Some(events) => match last_after(contents.lines, "summary: "@) {
                None => Err(complaint(tool, path, "missing summary line"@)),
                Some(summary) => if words(events).len() != words(summary).len() {
                    Err(complaint(tool, path, "events and summary lengths do not match"@))
                } else {
                    match read_values(words(events), words(summary), words(events).len()) {
                        Err(invalid) => Err(complaint(tool, path, invalid_value(invalid))),
                        Ok(values) => checked_counters(values),
                    }
                },
            },
        },
    }
}

/// The values in a data line of Callgrind: a position, and then one value for each event, but for
/// zeros at the end.
pub open spec fn data_line_values(names: Seq<Seq<char>>, line: Seq<char>, path: Seq<char>) -> Result<
    Map<Seq<char>, u64>,
    RunnerErrorView,
> {
    let values = if words(line).len() == 0 {
        Seq::empty()
    } else {
        words(line).skip(1)
    };
    match read_values(names, values, names.len()) {
        Err(invalid) => Err(complaint("callgrind"@, path, invalid_value(invalid))),
        Ok(values) => Ok(values),
    }
}

/// Why there is no further line.
pub open spec fn early_end(
    contents: ContentsView,
    path: Seq<char>,
    detail: Seq<char>,
) -> RunnerErrorView {
    match contents.error {
        Some(error) => RunnerErrorView::Io(error),
        None => complaint("callgrind"@, path, detail),
    }
}

/// The counters in an output file of Callgrind from the line at `i` on, where `names` are the
/// events of the last `events: ` line before it and `found` are the counters before it.
///
/// Each call of a benchmark takes three lines: one that names the function, one about the calls,
/// and the data line.
pub open spec fn callgrind_stats_from(
    contents: ContentsView,
    path: Seq<char>,
    i: nat,
    names: Option<Seq<Seq<char>>>,
    found: Map<Seq<char>, CachegrindStats>,
) -> Result<Map<Seq<char>, CachegrindStats>, RunnerErrorView>
    decreases contents.lines.len() - i,
{
    let lines = contents.lines;
    if i >= lines.len() {
        match contents.error {
            Some(error) => Err(RunnerErrorView::Io(error)),
            None => Ok(found),
        }
    } else if let Some(events) = stripped(lines[i as int], "events: "@) {
        callgrind_stats_from(contents, path, i + 1, Some(words(events)), found)
    } else if let Some(name) = stripped(lines[i as int], "cfn=__iai_bench_"@) {
        match names {
            None => Err(
                complaint(
                    "callgrind"@,
                    path,
                    "events line must appear before function data"@,
                ),
            ),
            Some(names) => if i + 1 >= lines.len() {
                Err(
                    early_end(
                        contents,
                        path,
                        "unexpected end of file after cfn=__iai_bench_"@ + name,
                    ),
                )
            } else if i + 2 >= lines.len() {
                Err(
                    early_end(
                        contents,
                        path,
                        "unexpected end of file after calls line for "@ + name,
                    ),
                )
            } else {
                match data_line_values(names, lines[i as int + 2], path) {
                    Err(error) => Err(error),
                    Ok(values) => match checked_counters(values) {
                        Err(error) => Err(error),
                        Ok(stats) => callgrind_stats_from(
                            contents,
                            path,
                            i + 3,
                            Some(names),
                            found.insert(name, stats),
                        ),
                    },
                }
            },
        }
    } else {
        callgrind_stats_from(contents, path, i + 1, names, found)
    }
}

/// The counters in an output file of Callgrind, by benchmark.
pub open spec fn callgrind_stats(contents: ContentsView, path: Seq<char>) -> Result<
    Map<Seq<char>, CachegrindStats>,
    RunnerErrorView,
> {
    callgrind_stats_from(contents, path, 0, None, Map::empty())
}

/// The complaint about an output file of `tool`.
fn complain(tool: &str, path: &str, detail: &str) -> (r: RunnerError)
    ensures
        r@ == complaint(tool@, path@, detail@),
{
    let mut text: String = "Unable to parse ".to_owned();
    text.append(tool);
    text.append(" output file ");
    text.append(path);
    text.append(": ");
    text.append(detail);
    RunnerError::ParseError(text)
}

/// The values of the events `names`: the word at `first + i` of `tokens` is the value of the event
/// at `i`. Zeros at the end may be left out.
fn collect_events(
    tool: &str,
    path: &str,
    names: &[String],
    tokens: &[String],
    first: usize,
) -> (r: Result<EventMap, RunnerError>)
    requires
        first <= 1,
    ensures
        ({
            let values = if first <= tokens@.len() {
                views(tokens@).skip(first as int)
            } else {
                Seq::empty()
            };
            match read_values(views(names@), values, names@.len()) {
                Err(invalid) => r is Err && r->Err_0@ == complaint(
                    tool@,
                    path@,
                    invalid_value(invalid),
                ),
                Ok(events) => r is Ok && r->Ok_0@ == events,
            }
        }),
{
    let mut events: EventMap = EventMap::new();
    let ghost values = if first <= tokens@.len() {
        views(tokens@).skip(first as int)
    } else {
        Seq::empty()
    };
    let mut i: usize = 0;
    while i < names.len()
        invariant
            i <= names@.len(),
            first <= 1,
            values == (if first <= tokens@.len() {
                views(tokens@).skip(first as int)
            } else {
                Seq::empty()
            }),
            read_values(views(names@), values, i as nat) == Ok::<
                Map<Seq<char>, u64>,
                InvalidValue,
            >(events@),
        decreases names@.len() - i,
    {
        let value: u64 = if i < tokens.len() && first < tokens.len() - i {
            let token = tokens[first + i].as_str();
            assert(values[i as int] == token@);
            match parse_u64(token) {
                Ok(value) => value,
                Err(error) => {
                    let mut detail: String = "value '".to_owned();
                    detail.append(token);
                    detail.append("' for event '");
                    detail.append(names[i].as_str());
                    detail.append("' is invalid (");
                    detail.append(error.message());
                    detail.append(")");
                    proof {
                        let invalid = InvalidValue { value: token@, event: names@[i as int]@, error };
                        assert(read_values(views(names@), values, (i + 1) as nat) == Err::<
                            Map<Seq<char>, u64>,
                            InvalidValue,
                        >(invalid));
                        lemma_read_values_error(
                            views(names@),
                            values,
                            (i + 1) as nat,
                            names@.len(),
                        );
                        assert(detail@ == invalid_value(invalid));
                    }
                    return Err(complain(tool, path, detail.as_str()));
                },
            }
        } else {
            0
        };
        assert(value_at(values, i as int) == Ok::<nat, NumberError>(value as nat));
        assert(views(names@)[i as int] == names@[i as int]@);
        events.insert(names[i].clone(), value);
        i = i + 1;
    }
    Ok(events)
}

/// An error in the first values is the error in all of them.
proof fn lemma_read_values_error(names: Seq<Seq<char>>, values: Seq<Seq<char>>, i: nat, n: nat)
    requires
        i <= n,
        read_values(names, values, i) is Err,
    ensures
        read_values(names, values, n) == read_values(names, values, i),
    decreases n,
{
    if i < n {
        lemma_read_values_error(names, values, i, (n - 1) as nat);
    }
}

/// Reads the values of a data line of Callgrind: a source position, and then one value for each of
/// `events`.
///
/// Callgrind leaves out zeros at the end, so an event without a value counts as zero.
pub fn parse_data_line(events: &[String], data_line: &str, path: &str) -> (r: Result<
    EventMap,
    RunnerError,
>)
    ensures
        match r {
            Ok(values) => data_line_values(views(events@), data_line@, path@) == Ok::<
                Map<Seq<char>, u64>,
                RunnerErrorView,
            >(values@),
            Err(error) => data_line_values(views(events@), data_line@, path@) == Err::<
                Map<Seq<char>, u64>,
                RunnerErrorView,
            >(error@),
        },
{
    let tokens = split_words(data_line);
    assert(views(tokens@).len() == tokens@.len());
    collect_events("callgrind", path, events, tokens.as_slice(), 1)
}

/// Builds counters, with a missing event as a parse error.
fn counters_of(events: &EventMap) -> (r: Result<BenchStats, RunnerError>)
    ensures
        match r {
            Ok(stats) => checked_counters(events@) == Ok::<CachegrindStats, RunnerErrorView>(stats),
            Err(error) => checked_counters(events@) == Err::<CachegrindStats, RunnerErrorView>(
                error@,
            ),
        },
{
    match BenchStats::from_events(events) {
        Ok(stats) => Ok(stats),
        Err(message) => Err(RunnerError::ParseError(message)),
    }
}

/// Reads the counters in an output file of Cachegrind.
///
/// The `events: ` line names the events, and the `summary: ` line holds one value for each of them.
/// Other lines are skipped. Where such a line occurs more than once, the last one counts.
pub fn parse_cachegrind_output(contents: &FileContents, path: &str) -> (r: Result<
    BenchStats,
    RunnerError,
>)
    ensures
        match r {
            Ok(stats) => cachegrind_stats(contents@, path@) == Ok::<
                CachegrindStats,
                RunnerErrorView,
            >(stats),
            Err(error) => cachegrind_stats(contents@, path@) == Err::<
                CachegrindStats,
                RunnerErrorView,
            >(error@),
        },
{
    let ghost lines = views(contents.lines@);
    let mut events_tokens: Option<Vec<String>> = None;
    let mut summary_tokens: Option<Vec<String>> = None;
    let mut i: usize = 0;
    while i < contents.lines.len()
        invariant
            i <= contents.lines@.len(),
            lines == views(contents.lines@),
            match events_tokens {
                Some(tokens) => last_after(lines.take(i as int), "events: "@) is Some && views(
                    tokens@,
                ) == words(last_after(lines.take(i as int), "events: "@)->0),
                None => last_after(lines.take(i as int), "events: "@) is None,
            },
            match summary_tokens {
                Some(tokens) => last_after(lines.take(i as int), "summary: "@) is Some && views(
                    tokens@,
                ) == words(last_after(lines.take(i as int), "summary: "@)->0),
                None => last_after(lines.take(i as int), "summary: "@) is None,
            },
        decreases contents.lines@.len() - i,
    {
        let line = contents.lines[i].as_str();
        proof {
            let read = lines.take(i + 1);
            assert(read.drop_last() == lines.take(i as int));
            assert(read.last() == line@);
            lemma_events_and_summary_differ(line@);
        }
        if let Some(values) = strip_prefix(line, "events: ") {
            events_tokens = Some(split_words(values));
        } else if let Some(values) = strip_prefix(line, "summary: ") {
            summary_tokens = Some(split_words(values));
        }
        i = i + 1;
    }
    assert(lines.take(i as int) == lines);
    if let Some(error) = &contents.error {
        return Err(RunnerError::Io(error.clone()));
    }
    let events = match events_tokens {
        Some(tokens) => tokens,
        None => return Err(complain("cachegrind", path, "missing events line")),
    };
    let summary = match summary_tokens {
        Some(tokens) => tokens,
        None => return Err(complain("cachegrind", path, "missing summary line")),
    };
    assert(views(events@).len() == events@.len() && views(summary@).len() == summary@.len());
    if events.len() != summary.len() {
        return Err(complain("cachegrind", path, "events and summary lengths do not match"));
    }
    assert(views(summary@).skip(0) == views(summary@));
    match collect_events("cachegrind", path, events.as_slice(), summary.as_slice(), 0) {
        Ok(values) => counters_of(&values),
        Err(error) => Err(error),
    }
}

/// No line begins with both prefixes.
proof fn lemma_events_and_summary_differ(line: Seq<char>)
    ensures
        stripped(line, "events: "@) is None || stripped(line, "summary: "@) is None,
{
    reveal_strlit("events: ");
    reveal_strlit("summary: ");
    if stripped(line, "events: "@) is Some && stripped(line, "summary: "@) is Some {
        assert(line[0] == "events: "@[0]);
        assert(line[0] == "summary: "@[0]);
    }
}

/// Reads the counters in an output file of Callgrind, by benchmark.
///
/// After an `events: ` line, each call of a benchmark takes three lines: `cfn=__iai_bench_<name>`,
/// one about the calls, and the data line. Other lines are skipped.
pub fn parse_callgrind_output(contents: &FileContents, path: &str) -> (r: Result<
    BenchStatsMap,
    RunnerError,
>)
    ensures
        match r {
            Ok(stats) => callgrind_stats(contents@, path@) == Ok::<
                Map<Seq<char>, CachegrindStats>,
                RunnerErrorView,
            >(stats@),
            Err(error) => callgrind_stats(contents@, path@) == Err::<
                Map<Seq<char>, CachegrindStats>,
                RunnerErrorView,
            >(error@),
        },
{
    let mut events_tokens: Option<Vec<String>> = None;
    let mut results: BenchStatsMap = BenchStatsMap::new();
    let n: usize = contents.lines.len();
    let mut i: usize = 0;
    assert(contents@.lines.len() == n);
    while i < n
        invariant
            i <= n,
            n == contents.lines@.len(),
            n == contents@.lines.len(),
            callgrind_stats(contents@, path@) == callgrind_stats_from(
                contents@,
                path@,
                i as nat,
                (match events_tokens {
                    Some(tokens) => Some(views(tokens@)),
                    None => None,
                }),
                results@,
            ),
        decreases n - i,
    {
        let line = contents.lines[i].as_str();
        assert(contents@.lines[i as int] == line@);
        if let Some(values) = strip_prefix(line, "events: ") {
            events_tokens = Some(split_words(values));
            i = i + 1;
        } else if let Some(name) = strip_prefix(line, "cfn=__iai_bench_") {
            let events = match &events_tokens {
                Some(tokens) => tokens,
                None => return Err(
                    complain("callgrind", path, "events line must appear before function data"),
                ),
            };
            if n - i <= 1 {
                let mut detail: String = "unexpected end of file after cfn=__iai_bench_".to_owned();
                detail.append(name);
                return Err(end_early(contents, path, detail.as_str()));
            }
            if n - i <= 2 {
                let mut detail: String = "unexpected end of file after calls line for ".to_owned();
                detail.append(name);
                return Err(end_early(contents, path, detail.as_str()));
            }
            let data_line = contents.lines[i + 2].as_str();
            assert(contents@.lines[i as int + 2] == data_line@);
            let event_map = match parse_data_line(events.as_slice(), data_line, path) {
                Ok(values) => values,
                Err(error) => return Err(error),
            };
            let stats = match counters_of(&event_map) {
                Ok(stats) => stats,
                Err(error) => return Err(error),
            };
            results.insert(name.to_owned(), stats);
            i = i + 3;
        } else {
            i = i + 1;
        }
    }
    if let Some(error) = &contents.error {
        return Err(RunnerError::Io(error.clone()));
    }
    Ok(results)
}

/// Why there is no further line.
fn end_early(contents: &FileContents, path: &str, detail: &str) -> (r: RunnerError)
    ensures
        r@ == early_end(contents@, path@, detail@),
{
    match &contents.error {
        Some(error) => RunnerError::Io(error.clone()),
        None => complain("callgrind", path, detail),
    }
}

/// The text of the counters, in the order of the required events.
pub open spec fn written(stats: CachegrindStats) -> Seq<Seq<char>> {
    seq![
        decimal(stats.instruction_reads as nat),
        decimal(stats.instruction_l1_misses as nat),
        decimal(stats.instruction_cache_misses as nat),
        decimal(stats.data_reads as nat),
        decimal(stats.data_l1_read_misses as nat),
        decimal(stats.data_cache_read_misses as nat),
        decimal(stats.data_writes as nat),
        decimal(stats.data_l1_write_misses as nat),
        decimal(stats.data_cache_write_misses as nat),
    ]
}

/// Counters that are written under the names of their events are read back.
pub proof fn law_written_counters_are_read_back(stats: CachegrindStats)
    ensures
        ({
            let events = read_values(required_events(), written(stats), required_events().len());
            events is Ok && counters(events->Ok_0) == Ok::<CachegrindStats, Seq<char>>(stats)
        }),
{
    law_unsigned_round_trip(stats.instruction_reads);
    law_unsigned_round_trip(stats.instruction_l1_misses);
    law_unsigned_round_trip(stats.instruction_cache_misses);
    law_unsigned_round_trip(stats.data_reads);
    law_unsigned_round_trip(stats.data_l1_read_misses);
    law_unsigned_round_trip(stats.data_cache_read_misses);
    law_unsigned_round_trip(stats.data_writes);
    law_unsigned_round_trip(stats.data_l1_write_misses);
    law_unsigned_round_trip(stats.data_cache_write_misses);
    reveal_with_fuel(read_values, 10);
    reveal_with_fuel(first_missing, 10);
    lemma_required_events_differ();
    let names = required_events();
    let events = read_values(names, written(stats), names.len())->Ok_0;
    assert(events =~= map![
        names[0] => stats.instruction_reads,
        names[1] => stats.instruction_l1_misses,
        names[2] => stats.instruction_cache_misses,
        names[3] => stats.data_reads,
        names[4] => stats.data_l1_read_misses,
        names[5] => stats.data_cache_read_misses,
        names[6] => stats.data_writes,
        names[7] => stats.data_l1_write_misses,
        names[8] => stats.data_cache_write_misses,
    ]);
}

/// No two required events have the same name.
proof fn lemma_required_events_differ()
    ensures
        required_events().no_duplicates(),
{
    reveal_strlit("Ir");
    reveal_strlit("I1mr");
    reveal_strlit("ILmr");
    reveal_strlit("Dr");
    reveal_strlit("D1mr");
    reveal_strlit("DLmr");
    reveal_strlit("Dw");
    reveal_strlit("D1mw");
    reveal_strlit("DLmw");
    let names = required_events();
    assert forall|i: int, j: int| 0 <= i < names.len() && 0 <= j < names.len() && i != j implies names[i]
        != names[j] by {
        assert(names[0].len() == 2 && names[3].len() == 2 && names[6].len() == 2);
        assert(names[0][0] == 'I' && names[3][1] == 'r' && names[6][1] == 'w');
        assert(names[1][0] == 'I' && names[1][1] == '1' && names[2][0] == 'I' && names[2][1]
            == 'L');
        assert(names[4][0] == 'D' && names[4][1] == '1' && names[4][3] == 'r');
        assert(names[5][0] == 'D' && names[5][1] == 'L' && names[5][3] == 'r');
        assert(names[7][0] == 'D' && names[7][1] == '1' && names[7][3] == 'w');
        assert(names[8][0] == 'D' && names[8][1] == 'L' && names[8][3] == 'w');
        assert(names[3][0] == 'D' && names[6][0] == 'D' && names[0][1] == 'r');
    }
}

/// A line that begins neither with `events: ` nor with `summary: ` does not change what is read
/// from an output file of Cachegrind.
pub proof fn law_cachegrind_skips_other_lines(
    before: Seq<Seq<char>>,
    line: Seq<char>,
    after: Seq<Seq<char>>,
    error: Option<Seq<char>>,
    path: Seq<char>,
)
    requires
        stripped(line, "events: "@) is None,
        stripped(line, "summary: "@) is None,
    ensures
        cachegrind_stats(ContentsView { lines: before + seq![line] + after, error }, path)
            == cachegrind_stats(ContentsView { lines: before + after, error }, path),
{
    lemma_last_after_skips(before, line, after, "events: "@);
    lemma_last_after_skips(before, line, after, "summary: "@);
}

/// A line without the prefix is not looked at.
proof fn lemma_last_after_skips(
    before: Seq<Seq<char>>,
    line: Seq<char>,
    after: Seq<Seq<char>>,
    prefix: Seq<char>,
)
    requires
        stripped(line, prefix) is None,
    ensures
        last_after(before + seq![line] + after, prefix) == last_after(before + after, prefix),
    decreases after.len(),
{
    let long = before + seq![line] + after;
    let short = before + after;
    if after.len() == 0 {
        assert(long.drop_last() == before);
        assert(long.last() == line);
        assert(short == before);
    } else {
        assert(long.drop_last() == before + seq![line] + after.drop_last());
        assert(short.drop_last() == before + after.drop_last());
        assert(long.last() == after.last() && short.last() == after.last());
        lemma_last_after_skips(before, line, after.drop_last(), prefix);
    }
}

/// Whatever an output file of Cachegrind begins with, an events line and a summary line at its end
/// that hold some counters give those counters.
pub proof fn law_cachegrind_reads_counters(
    before: Seq<Seq<char>>,
    events: Seq<char>,
    summary: Seq<char>,
    stats: CachegrindStats,
    path: Seq<char>,
)
    requires
        words(events) == required_events(),
        words(summary) == written(stats),
    ensures
        cachegrind_stats(
            ContentsView {
                lines: before + seq!["events: "@ + events, "summary: "@ + summary],
                error: None,
            },
            path,
        ) == Ok::<CachegrindStats, RunnerErrorView>(stats),
{
    let lines = before + seq!["events: "@ + events, "summary: "@ + summary];
    assert(lines.last() == "summary: "@ + summary);
    assert(lines.drop_last().last() == "events: "@ + events);
    lemma_stripped_of_prefixed("summary: "@, summary);
    lemma_stripped_of_prefixed("events: "@, events);
    lemma_events_and_summary_differ(lines.last());
    reveal_with_fuel(last_after, 3);
    law_written_counters_are_read_back(stats);
}

/// What follows a prefix is found.
proof fn lemma_stripped_of_prefixed(prefix: Seq<char>, rest: Seq<char>)
    ensures
        stripped(prefix + rest, prefix) == Some(rest),
{
    assert(prefix.is_prefix_of(prefix + rest));
    assert((prefix + rest).skip(prefix.len() as int) == rest);
}

/// A zero at the end of a data line of Callgrind may be left out.
pub proof fn law_trailing_zero_may_be_left_out(
    names: Seq<Seq<char>>,
    line: Seq<char>,
    path: Seq<char>,
)
    ensures
        data_line_values(names, line + " 0"@, path) == data_line_values(names, line, path),
{
    let zero = " 0"@;
    reveal_strlit(" 0");
    lemma_words_concat(line, zero);
    assert(words(zero) == seq![seq!['0']]) by {
        reveal_with_fuel(words, 3);
        reveal_with_fuel(word_len, 2);
        assert(zero.skip(1) == seq!['0']);
        assert(seq!['0'].take(1) == seq!['0']);
        assert(seq!['0'].skip(1).len() == 0);
    }
    let shorter = if words(line).len() == 0 {
        Seq::empty()
    } else {
        words(line).skip(1)
    };
    let longer = words(line + zero).skip(1);
    assert(words(line + zero) == words(line).push(seq!['0']));
    assert(decimal(0) == seq!['0']);
    law_unsigned_round_trip(0);
    assert forall|i: int| 0 <= i implies #[trigger] value_at(longer, i) == value_at(shorter, i) by {
        if words(line).len() > 0 {
            assert(longer == shorter.push(seq!['0']));
        }
    }
    assert forall|i: int| 0 <= i && value_at(longer, i) is Err implies longer[i] == shorter[i] by {
        if words(line).len() > 0 {
            assert(longer == shorter.push(seq!['0']));
        }
    }
    lemma_read_values_same(names, longer, shorter, names.len());
}

/// What follows the values of all events in a data line of Callgrind is ignored.
pub proof fn law_surplus_values_are_ignored(
    names: Seq<Seq<char>>,
    line: Seq<char>,
    more: Seq<char>,
    path: Seq<char>,
)
    requires
        words(line).len() > names.len(),
        more.len() > 0 ==> whitespace(more[0]),
    ensures
        data_line_values(names, line + more, path) == data_line_values(names, line, path),
{
    lemma_words_concat(line, more);
    let shorter = words(line).skip(1);
    let longer = words(line + more).skip(1);
    assert(longer == shorter + words(more));
    lemma_read_values_same(names, longer, shorter, names.len());
}

/// Values that agree on the first `n` places give the same events.
proof fn lemma_read_values_same(
    names: Seq<Seq<char>>,
    a: Seq<Seq<char>>,
    b: Seq<Seq<char>>,
    n: nat,
)
    requires
        forall|i: int| 0 <= i < n ==> #[trigger] value_at(a, i) == value_at(b, i),
        forall|i: int| 0 <= i < n && #[trigger] value_at(a, i) is Err ==> a[i] == b[i],
    ensures
        read_values(names, a, n) == read_values(names, b, n),
    decreases n,
{
    if n > 0 {
        lemma_read_values_same(names, a, b, (n - 1) as nat);
        assert(value_at(a, n - 1) == value_at(b, n - 1));
    }
}

/// Lines in front of an output file of Callgrind that begin neither with `events: ` nor with
/// `cfn=__iai_bench_` do not change what is read from it.
pub proof fn law_callgrind_skips_other_lines(
    before: Seq<Seq<char>>,
    contents: ContentsView,
    path: Seq<char>,
)
    requires
        forall|i: int|
            0 <= i < before.len() ==> stripped(#[trigger] before[i], "events: "@) is None
                && stripped(before[i], "cfn=__iai_bench_"@) is None,
    ensures
        callgrind_stats(
            ContentsView { lines: before + contents.lines, error: contents.error },
            path,
        ) == callgrind_stats(contents, path),
{
    let whole = ContentsView { lines: before + contents.lines, error: contents.error };
    assert(whole.lines.take(before.len() as int) == before);
    lemma_callgrind_skips(whole, before, path, 0);
    lemma_callgrind_shifted(before, contents, path, 0, None, Map::empty());
}

/// Lines that say nothing are passed over, from the one at `i` on.
proof fn lemma_callgrind_skips(
    whole: ContentsView,
    before: Seq<Seq<char>>,
    path: Seq<char>,
    i: nat,
)
    requires
        i <= before.len() <= whole.lines.len(),
        before == whole.lines.take(before.len() as int),
        forall|k: int|
            0 <= k < before.len() ==> stripped(#[trigger] before[k], "events: "@) is None
                && stripped(before[k], "cfn=__iai_bench_"@) is None,
    ensures
        callgrind_stats_from(whole, path, i, None, Map::empty()) == callgrind_stats_from(
            whole,
            path,
            before.len(),
            None,
            Map::empty(),
        ),
    decreases before.len() - i,
{
    if i < before.len() {
        assert(whole.lines[i as int] == before[i as int]);
        lemma_callgrind_skips(whole, before, path, i + 1);
    }
}

/// Lines that were passed over are not looked at again.
proof fn lemma_callgrind_shifted(
    before: Seq<Seq<char>>,
    contents: ContentsView,
    path: Seq<char>,
    i: nat,
    names: Option<Seq<Seq<char>>>,
    found: Map<Seq<char>, CachegrindStats>,
)
    ensures
        callgrind_stats_from(
            ContentsView { lines: before + contents.lines, error: contents.error },
            path,
            before.len() + i,
            names,
            found,
        ) == callgrind_stats_from(contents, path, i, names, found),
    decreases contents.lines.len() - i,
{
    let whole = ContentsView { lines: before + contents.lines, error: contents.error };
    let lines = contents.lines;
    if i < lines.len() {
        assert(whole.lines[before.len() + i as int] == lines[i as int]);
        if let Some(events) = stripped(lines[i as int], "events: "@) {
            lemma_callgrind_shifted(before, contents, path, i + 1, Some(words(events)), found);
        } else if let Some(name) = stripped(lines[i as int], "cfn=__iai_bench_"@) {
            if names is Some && i + 2 < lines.len() {
                assert(whole.lines[before.len() + i as int + 2] == lines[i as int + 2]);
                let values = data_line_values(names->0, lines[i as int + 2], path);
                if values is Ok && checked_counters(values->Ok_0) is Ok {
                    let stats = checked_counters(values->Ok_0)->Ok_0;
                    lemma_callgrind_shifted(
                        before,
                        contents,
                        path,
                        i + 3,
                        names,
                        found.insert(name, stats),
                    );
                }
            }
        } else {
            lemma_callgrind_shifted(before, contents, path, i + 1, names, found);
        }
    }
}

/// What Callgrind writes of a benchmark.
pub struct Measurement {
    pub name: Seq<char>,
    /// The line about the calls.
    pub calls: Seq<char>,
    /// The data line.
    pub data: Seq<char>,
    /// The counters that the data line holds.
    pub stats: CachegrindStats,
}

/// The lines of an output file of Callgrind: the names of the events, and three lines for each
/// benchmark.
pub open spec fn callgrind_lines(events: Seq<char>, measurements: Seq<Measurement>) -> Seq<
    Seq<char>,
> {
    Seq::new(
        1 + 3 * measurements.len(),
        |i: int|
            if i == 0 {
                "events: "@ + events
            } else if (i - 1) % 3 == 0 {
                "cfn=__iai_bench_"@ + measurements[(i - 1) / 3].name
            } else if (i - 1) % 3 == 1 {
                measurements[(i - 1) / 3].calls
            } else {
                measurements[(i - 1) / 3].data
            },
    )
}

/// The counters of the benchmarks by name. Of a benchmark that was measured more than once, the
/// last counters count.
pub open spec fn stats_by_name(measurements: Seq<Measurement>) -> Map<Seq<char>, CachegrindStats>
    decreases measurements.len(),
{
    if measurements.len() == 0 {
        Map::empty()
    } else {
        stats_by_name(measurements.drop_last()).insert(
            measurements.last().name,
            measurements.last().stats,
        )
    }
}

/// Whether each data line holds a position and then the counters.
pub open spec fn hold_their_counters(measurements: Seq<Measurement>) -> bool {
    forall|i: int|
        0 <= i < measurements.len() ==> {
            let values = words((#[trigger] measurements[i]).data);
            values.len() > 0 && values.skip(1) == written(measurements[i].stats)
        }
}

/// An output file of Callgrind that holds the counters of some benchmarks after the names of the
/// events gives those counters under the names of the benchmarks.
pub proof fn law_callgrind_reads_counters(
    events: Seq<char>,
    measurements: Seq<Measurement>,
    path: Seq<char>,
)
    requires
        words(events) == required_events(),
        hold_their_counters(measurements),
    ensures
        callgrind_stats(
            ContentsView { lines: callgrind_lines(events, measurements), error: None },
            path,
        ) == Ok::<Map<Seq<char>, CachegrindStats>, RunnerErrorView>(stats_by_name(measurements)),
{
    let lines = callgrind_lines(events, measurements);
    lemma_stripped_of_prefixed("events: "@, events);
    assert(lines[0] == "events: "@ + events);
    assert(measurements.take(0) == Seq::<Measurement>::empty());
    lemma_callgrind_reads_from(events, measurements, path, 0);
}

/// The measurements from the one at `k` on are read.
proof fn lemma_callgrind_reads_from(
    events: Seq<char>,
    measurements: Seq<Measurement>,
    path: Seq<char>,
    k: nat,
)
    requires
        k <= measurements.len(),
        hold_their_counters(measurements),
    ensures
        callgrind_stats_from(
            ContentsView { lines: callgrind_lines(events, measurements), error: None },
            path,
            1 + 3 * k,
            Some(required_events()),
            stats_by_name(measurements.take(k as int)),
        ) == Ok::<Map<Seq<char>, CachegrindStats>, RunnerErrorView>(stats_by_name(measurements)),
    decreases measurements.len() - k,
{
    let lines = callgrind_lines(events, measurements);
    let i = 1 + 3 * k as int;
    if k == measurements.len() {
        assert(measurements.take(k as int) == measurements);
    } else {
        let measurement = measurements[k as int];
        assert(lines[i] == "cfn=__iai_bench_"@ + measurement.name);
        assert(lines[i + 2] == measurement.data);
        lemma_stripped_of_prefixed("cfn=__iai_bench_"@, measurement.name);
        assert(stripped(lines[i], "events: "@) is None) by {
            reveal_strlit("events: ");
            reveal_strlit("cfn=__iai_bench_");
            assert(lines[i][0] == 'c');
        }
        law_written_counters_are_read_back(measurement.stats);
        assert(measurements.take(k as int + 1).drop_last() == measurements.take(k as int));
        assert(measurements.take(k as int + 1).last() == measurement);
        lemma_callgrind_reads_from(events, measurements, path, k + 1);
    }
}

/// Each value stands under the name at its place, and an event without a value counts as zero; of a
/// name that occurs more than once, the last place counts. No other names get values.
pub proof fn law_values_stand_under_their_names(
    names: Seq<Seq<char>>,
    values: Seq<Seq<char>>,
    i: int,
)
    requires
        forall|k: int|
            0 <= k < names.len() && k < values.len() ==> unsigned_value(#[trigger] values[k]) is Ok,
        0 <= i < names.len(),
        forall|k: int| i < k < names.len() ==> #[trigger] names[k] != names[i],
    ensures
        ({
            let events = read_values(names, values, names.len());
            &&& events is Ok
            &&& events->Ok_0.contains_key(names[i])
            &&& events->Ok_0[names[i]] == (if i < values.len() {
                unsigned_value(values[i])->Ok_0
            } else {
                0
            })
            &&& forall|name: Seq<char>|
                #[trigger] events->Ok_0.contains_key(name) <==> names.contains(name)
        }),
{
    lemma_values_stand(names, values, names.len(), i);
    assert(names.take(names.len() as int) == names);
}

/// The first `n` values stand under their names.
proof fn lemma_values_stand(names: Seq<Seq<char>>, values: Seq<Seq<char>>, n: nat, i: int)
    requires
        n <= names.len(),
        forall|k: int|
            0 <= k < names.len() && k < values.len() ==> unsigned_value(#[trigger] values[k]) is Ok,
    ensures
        ({
            let events = read_values(names, values, n);
            &&& events is Ok
            &&& 0 <= i < n && (forall|k: int| i < k < n ==> #[trigger] names[k] != names[i]) ==> {
                &&& events->Ok_0.contains_key(names[i])
                &&& events->Ok_0[names[i]] == (if i < values.len() {
                    unsigned_value(values[i])->Ok_0
                } else {
                    0
                })
            }
            &&& forall|name: Seq<char>|
                #[trigger] events->Ok_0.contains_key(name) <==> names.take(n as int).contains(name)
        }),
    decreases n,
{
    if n > 0 {
        let m = (n - 1) as nat;
        lemma_values_stand(names, values, m, i);
        if n - 1 < values.len() {
            assert(unsigned_value(values[n - 1]) is Ok);
            lemma_unsigned_fits(values[n - 1]);
        }
        let before = read_values(names, values, m)->Ok_0;
        let events = read_values(names, values, n)->Ok_0;
        let some = names.take(n as int);
        assert(some.drop_last() == names.take(m as int));
        assert(some.last() == names[n - 1]);
        assert forall|name: Seq<char>| #[trigger] events.contains_key(name) <==> some.contains(
            name,
        ) by {
            if some.contains(name) && name != names[n - 1] {
                let k = choose|k: int| 0 <= k < some.len() && some[k] == name;
                assert(names.take(m as int)[k] == name);
            }
            if names.take(m as int).contains(name) {
                let k = choose|k: int| 0 <= k < m && names.take(m as int)[k] == name;
                assert(some[k] == name);
            }
            assert(some[n - 1] == names[n - 1]);
        }
        if 0 <= i < m && (forall|k: int| i < k < n ==> #[trigger] names[k] != names[i]) {
            assert(names[n - 1] != names[i]);
        }
    } else {
        assert(names.take(0).len() == 0);
    }
}

/// A number that was read fits.
proof fn lemma_unsigned_fits(s: Seq<char>)
    ensures
        unsigned_value(s) matches Ok(n) ==> n <= u64::MAX,
{
    law_other_texts_are_no_unsigned_numbers(s);
    if unsigned_value(s) is Ok {
        if all_digits(s) && s.len() > 0 {
            law_unsigned_numbers_are_digits(s);
        } else {
            law_unsigned_numbers_are_digits(s.skip(1));
            assert(seq!['+'] + s.skip(1) == s);
        }
    }
}

/// The first value that is no number is complained of, with its event and the reason.
pub proof fn law_first_invalid_value_is_named(
    names: Seq<Seq<char>>,
    values: Seq<Seq<char>>,
    i: int,
    error: NumberError,
)
    requires
        0 <= i < names.len(),
        i < values.len(),
        forall|k: int| 0 <= k < i ==> unsigned_value(#[trigger] values[k]) is Ok,
        unsigned_value(values[i]) == Err::<nat, NumberError>(error),
    ensures
        read_values(names, values, names.len()) == Err::<Map<Seq<char>, u64>, InvalidValue>(
            InvalidValue { value: values[i], event: names[i], error },
        ),
        invalid_value(InvalidValue { value: values[i], event: names[i], error }) == "value '"@
            + values[i] + "' for event '"@ + names[i] + "' is invalid ("@ + error.text() + ")"@,
{
    lemma_values_stand(names.take(i), values.take(i), i as nat, 0);
    lemma_read_values_of_prefix(names, values, i as nat);
    assert(value_at(values, i) == Err::<nat, NumberError>(error));
    assert(read_values(names, values, (i + 1) as nat) is Err);
    lemma_read_values_error(names, values, (i + 1) as nat, names.len());
}

/// The first values are read as if there were no others.
proof fn lemma_read_values_of_prefix(names: Seq<Seq<char>>, values: Seq<Seq<char>>, n: nat)
    requires
        n <= names.len(),
        n <= values.len(),
        forall|k: int| 0 <= k < n ==> unsigned_value(#[trigger] values[k]) is Ok,
    ensures
        read_values(names, values, n) is Ok,
    decreases n,
{
    if n > 0 {
        lemma_read_values_of_prefix(names, values, (n - 1) as nat);
        assert(unsigned_value(values[n - 1]) is Ok);
    }
}

/// A data line of Callgrind begins with a position; behind it stands one value for each event, in
/// the order of the events.
pub proof fn law_data_line_is_a_position_and_values(
    names: Seq<Seq<char>>,
    line: Seq<char>,
    path: Seq<char>,
    i: int,
)
    requires
        forall|k: int|
            1 <= k < words(line).len() && k <= names.len() ==> unsigned_value(
                #[trigger] words(line)[k],
            ) is Ok,
        0 <= i < names.len(),
        forall|k: int| i < k < names.len() ==> #[trigger] names[k] != names[i],
    ensures
        ({
            let events = data_line_values(names, line, path);
            &&& events is Ok
            &&& events->Ok_0.contains_key(names[i])
            &&& events->Ok_0[names[i]] == (if i + 1 < words(line).len() {
                unsigned_value(words(line)[i + 1])->Ok_0
            } else {
                0
            })
            &&& forall|name: Seq<char>|
                #[trigger] events->Ok_0.contains_key(name) <==> names.contains(name)
        }),
{
    let tokens = words(line);
    let values = if tokens.len() == 0 {
        Seq::empty()
    } else {
        tokens.skip(1)
    };
    assert forall|k: int| 0 <= k < names.len() && k < values.len() implies unsigned_value(
        #[trigger] values[k],
    ) is Ok by {
        assert(values[k] == tokens[k + 1]);
    }
    law_values_stand_under_their_names(names, values, i);
}

/// A value of a data line that is no number is complained of.
pub proof fn law_invalid_data_is_complained_of(
    names: Seq<Seq<char>>,
    line: Seq<char>,
    path: Seq<char>,
    i: int,
    error: NumberError,
)
    requires
        0 <= i < names.len(),
        i + 1 < words(line).len(),
        forall|k: int| 1 <= k <= i ==> unsigned_value(#[trigger] words(line)[k]) is Ok,
        unsigned_value(words(line)[i + 1]) == Err::<nat, NumberError>(error),
    ensures
        data_line_values(names, line, path) == Err::<Map<Seq<char>, u64>, RunnerErrorView>(
            RunnerErrorView::ParseError(
                "Unable to parse "@ + "callgrind"@ + " output file "@ + path + ": "@ + ("value '"@
                    + words(line)[i + 1] + "' for event '"@ + names[i] + "' is invalid ("@
                    + error.text() + ")"@),
            ),
        ),
{
    let values = words(line).skip(1);
    assert forall|k: int| 0 <= k < i implies unsigned_value(#[trigger] values[k]) is Ok by {
        assert(values[k] == words(line)[k + 1]);
    }
    law_first_invalid_value_is_named(names, values, i, error);
}

/// The counters in an output file of Cachegrind are those of its last events line and its last
/// summary line, wherever these stand.
pub proof fn law_cachegrind_reads_the_last_lines(
    lines: Seq<Seq<char>>,
    path: Seq<char>,
    e: int,
    events: Seq<char>,
    s: int,
    summary: Seq<char>,
)
    requires
        0 <= e < lines.len(),
        lines[e] == "events: "@ + events,
        forall|k: int| e < k < lines.len() ==> stripped(#[trigger] lines[k], "events: "@) is None,
        0 <= s < lines.len(),
        lines[s] == "summary: "@ + summary,
        forall|k: int| s < k < lines.len() ==> stripped(#[trigger] lines[k], "summary: "@) is None,
    ensures
        cachegrind_stats(ContentsView { lines, error: None }, path) == (if words(events).len()
            != words(summary).len() {
            Err::<CachegrindStats, RunnerErrorView>(
                RunnerErrorView::ParseError(
                    "Unable to parse "@ + "cachegrind"@ + " output file "@ + path + ": "@
                        + "events and summary lengths do not match"@,
                ),
            )
        } else {
            match read_values(words(events), words(summary), words(events).len()) {
                Err(invalid) => Err::<CachegrindStats, RunnerErrorView>(
                    RunnerErrorView::ParseError(
                        "Unable to parse "@ + "cachegrind"@ + " output file "@ + path + ": "@
                            + invalid_value(invalid),
                    ),
                ),
                Ok(values) => match counters(values) {
                    Ok(stats) => Ok::<CachegrindStats, RunnerErrorView>(stats),
                    Err(message) => Err::<CachegrindStats, RunnerErrorView>(
                        RunnerErrorView::ParseError(message),
                    ),
                },
            }
        }),
{
    lemma_stripped_of_prefixed("events: "@, events);
    lemma_stripped_of_prefixed("summary: "@, summary);
    lemma_last_after_is(lines, "events: "@, e);
    lemma_last_after_is(lines, "summary: "@, s);
}

/// The last line with a prefix is the one that counts.
proof fn lemma_last_after_is(lines: Seq<Seq<char>>, prefix: Seq<char>, i: int)
    requires
        0 <= i < lines.len(),
        stripped(lines[i], prefix) is Some,
        forall|k: int| i < k < lines.len() ==> stripped(#[trigger] lines[k], prefix) is None,
    ensures
        last_after(lines, prefix) == stripped(lines[i], prefix),
    decreases lines.len(),
{
    if i < lines.len() - 1 {
        assert(stripped(lines[lines.len() - 1], prefix) is None);
        assert forall|k: int| i < k < lines.drop_last().len() implies stripped(
            #[trigger] lines.drop_last()[k],
            prefix,
        ) is None by {
            assert(lines.drop_last()[k] == lines[k]);
        }
        lemma_last_after_is(lines.drop_last(), prefix, i);
    }
}

/// Without a line with a prefix there is none.
proof fn lemma_last_after_is_none(lines: Seq<Seq<char>>, prefix: Seq<char>)
    requires
        forall|k: int| 0 <= k < lines.len() ==> stripped(#[trigger] lines[k], prefix) is None,
    ensures
        last_after(lines, prefix) is None,
    decreases lines.len(),
{
    if lines.len() > 0 {
        assert(stripped(lines[lines.len() - 1], prefix) is None);
        assert forall|k: int| 0 <= k < lines.drop_last().len() implies stripped(
            #[trigger] lines.drop_last()[k],
            prefix,
        ) is None by {
            assert(lines.drop_last()[k] == lines[k]);
        }
        lemma_last_after_is_none(lines.drop_last(), prefix);
    }
}

/// An output file of Cachegrind without an events line, or with one but without a summary line, is
/// complained of.
pub proof fn law_cachegrind_needs_its_lines(lines: Seq<Seq<char>>, path: Seq<char>, e: int)
    ensures
        (forall|k: int| 0 <= k < lines.len() ==> stripped(#[trigger] lines[k], "events: "@) is None)
            ==> cachegrind_stats(ContentsView { lines, error: None }, path) == Err::<
            CachegrindStats,
            RunnerErrorView,
        >(
            RunnerErrorView::ParseError(
                "Unable to parse "@ + "cachegrind"@ + " output file "@ + path + ": "@
                    + "missing events line"@,
            ),
        ),
        0 <= e < lines.len() && stripped(lines[e], "events: "@) is Some && (forall|k: int|
            0 <= k < lines.len() ==> stripped(#[trigger] lines[k], "summary: "@) is None)
            ==> cachegrind_stats(ContentsView { lines, error: None }, path) == Err::<
            CachegrindStats,
            RunnerErrorView,
        >(
            RunnerErrorView::ParseError(
                "Unable to parse "@ + "cachegrind"@ + " output file "@ + path + ": "@
                    + "missing summary line"@,
            ),
        ),
{
    if forall|k: int| 0 <= k < lines.len() ==> stripped(#[trigger] lines[k], "events: "@) is None {
        lemma_last_after_is_none(lines, "events: "@);
    }
    if 0 <= e < lines.len() && stripped(lines[e], "events: "@) is Some {
        lemma_last_after_is_some(lines, "events: "@, e);
    }
    if forall|k: int| 0 <= k < lines.len() ==> stripped(#[trigger] lines[k], "summary: "@)
        is None {
        lemma_last_after_is_none(lines, "summary: "@);
    }
}

/// With a line with a prefix there is a last one.
proof fn lemma_last_after_is_some(lines: Seq<Seq<char>>, prefix: Seq<char>, i: int)
    requires
        0 <= i < lines.len(),
        stripped(lines[i], prefix) is Some,
    ensures
        last_after(lines, prefix) is Some,
    decreases lines.len(),
{
    if i < lines.len() - 1 {
        assert(lines.drop_last()[i] == lines[i]);
        lemma_last_after_is_some(lines.drop_last(), prefix, i);
    }
}

/// A file of Cachegrind that cannot be read to its end gives no counters, but the reason.
pub proof fn law_cachegrind_read_errors_are_passed_on(
    lines: Seq<Seq<char>>,
    error: Seq<char>,
    path: Seq<char>,
)
    ensures
        cachegrind_stats(ContentsView { lines, error: Some(error) }, path) == Err::<
            CachegrindStats,
            RunnerErrorView,
        >(RunnerErrorView::Io(error)),
{
}

/// Whether reading the lines of an output file of Callgrind from the one at `i` on comes to their
/// end, and does not end within the three lines of a measurement.
pub open spec fn whole_measurements(lines: Seq<Seq<char>>, i: nat) -> bool
    decreases lines.len() - i,
{
    if i >= lines.len() {
        i == lines.len()
    } else if "cfn=__iai_bench_"@.is_prefix_of(lines[i as int]) {
        i + 3 <= lines.len() && whole_measurements(lines, i + 3)
    } else {
        whole_measurements(lines, i + 1)
    }
}

/// No line begins with both prefixes.
proof fn lemma_events_and_functions_differ(line: Seq<char>)
    ensures
        stripped(line, "events: "@) is None || stripped(line, "cfn=__iai_bench_"@) is None,
{
    reveal_strlit("events: ");
    reveal_strlit("cfn=__iai_bench_");
    if stripped(line, "events: "@) is Some && stripped(line, "cfn=__iai_bench_"@) is Some {
        assert(line[0] == "events: "@[0]);
        assert(line[0] == "cfn=__iai_bench_"@[0]);
    }
}

/// A line that begins neither with `events: ` nor with `cfn=__iai_bench_` does not change what is
/// read from an output file of Callgrind, wherever it stands outside of a measurement: in front of
/// the names of the events or behind them, between measurements, or at the end.
pub proof fn law_callgrind_skips_lines_between_measurements(
    before: Seq<Seq<char>>,
    line: Seq<char>,
    after: Seq<Seq<char>>,
    error: Option<Seq<char>>,
    path: Seq<char>,
)
    requires
        whole_measurements(before, 0),
        stripped(line, "events: "@) is None,
        stripped(line, "cfn=__iai_bench_"@) is None,
    ensures
        callgrind_stats(ContentsView { lines: before + seq![line] + after, error }, path)
            == callgrind_stats(ContentsView { lines: before + after, error }, path),
{
    lemma_callgrind_skips_between(before, line, after, error, path, 0, None, Map::empty());
}

/// From each line in front of the one that says nothing, the same is read.
proof fn lemma_callgrind_skips_between(
    before: Seq<Seq<char>>,
    line: Seq<char>,
    after: Seq<Seq<char>>,
    error: Option<Seq<char>>,
    path: Seq<char>,
    i: nat,
    names: Option<Seq<Seq<char>>>,
    found: Map<Seq<char>, CachegrindStats>,
)
    requires
        i <= before.len(),
        whole_measurements(before, i),
        stripped(line, "events: "@) is None,
        stripped(line, "cfn=__iai_bench_"@) is None,
    ensures
        callgrind_stats_from(
            ContentsView { lines: before + seq![line] + after, error },
            path,
            i,
            names,
            found,
        ) == callgrind_stats_from(
            ContentsView { lines: before + after, error },
            path,
            i,
            names,
            found,
        ),
    decreases before.len() - i,
{
    let long = ContentsView { lines: before + seq![line] + after, error };
    let short = ContentsView { lines: before + after, error };
    let rest = ContentsView { lines: after, error };
    if i == before.len() {
        assert(long.lines[i as int] == line);
        lemma_callgrind_shifted(before + seq![line], rest, path, 0, names, found);
        lemma_callgrind_shifted(before, rest, path, 0, names, found);
        assert(long.lines == (before + seq![line]) + rest.lines);
    } else {
        let own = before[i as int];
        assert(long.lines[i as int] == own && short.lines[i as int] == own);
        lemma_events_and_functions_differ(own);
        if let Some(events) = stripped(own, "events: "@) {
            lemma_callgrind_skips_between(
                before,
                line,
                after,
                error,
                path,
                i + 1,
                Some(words(events)),
                found,
            );
        } else if let Some(name) = stripped(own, "cfn=__iai_bench_"@) {
            assert(whole_measurements(before, i + 3));
            assert(i + 2 < before.len());
            assert(long.lines[i as int + 2] == before[i as int + 2]);
            assert(short.lines[i as int + 2] == before[i as int + 2]);
            if names is Some {
                let values = data_line_values(names->0, before[i as int + 2], path);
                if values is Ok && checked_counters(values->Ok_0) is Ok {
                    let stats = checked_counters(values->Ok_0)->Ok_0;
                    lemma_callgrind_skips_between(
                        before,
                        line,
                        after,
                        error,
                        path,
                        i + 3,
                        names,
                        found.insert(name, stats),
                    );
                }
            }
        } else {
            lemma_callgrind_skips_between(
                before,
                line,
                after,
                error,
                path,
                i + 1,
                names,
                found,
            );
        }
    }
}

/// What is read of whole measurements does not depend on what follows them: reading goes on behind
/// them with what they gave.
proof fn lemma_callgrind_reads_on(
    before: Seq<Seq<char>>,
    rest: ContentsView,
    path: Seq<char>,
    i: nat,
    names: Option<Seq<Seq<char>>>,
    found: Map<Seq<char>, CachegrindStats>,
) -> (later: Option<Seq<Seq<char>>>)
    requires
        i <= before.len(),
        whole_measurements(before, i),
        callgrind_stats_from(
            ContentsView { lines: before, error: None },
            path,
            i,
            names,
            found,
        ) is Ok,
    ensures
        callgrind_stats_from(
            ContentsView { lines: before + rest.lines, error: rest.error },
            path,
            i,
            names,
            found,
        ) == callgrind_stats_from(
            rest,
            path,
            0,
            later,
            callgrind_stats_from(
                ContentsView { lines: before, error: None },
                path,
                i,
                names,
                found,
            )->Ok_0,
        ),
        later is None ==> names is None && forall|k: int|
            i <= k < before.len() ==> stripped(#[trigger] before[k], "cfn=__iai_bench_"@) is None
                && stripped(before[k], "events: "@) is None,
    decreases before.len() - i,
{
    let long = ContentsView { lines: before + rest.lines, error: rest.error };
    if i == before.len() {
        lemma_callgrind_shifted(before, rest, path, 0, names, found);
        names
    } else {
        let own = before[i as int];
        assert(long.lines[i as int] == own);
        lemma_events_and_functions_differ(own);
        if stripped(own, "events: "@) is Some {
            let events = stripped(own, "events: "@)->0;
            lemma_callgrind_reads_on(before, rest, path, i + 1, Some(words(events)), found)
        } else if stripped(own, "cfn=__iai_bench_"@) is Some {
            let name = stripped(own, "cfn=__iai_bench_"@)->0;
            assert(whole_measurements(before, i + 3));
            assert(i + 2 < before.len());
            assert(long.lines[i as int + 2] == before[i as int + 2]);
            let values = data_line_values(names->0, before[i as int + 2], path);
            let stats = checked_counters(values->Ok_0)->Ok_0;
            lemma_callgrind_reads_on(
                before,
                rest,
                path,
                i + 3,
                names,
                found.insert(name, stats),
            )
        } else {
            lemma_callgrind_reads_on(before, rest, path, i + 1, names, found)
        }
    }
}

/// A measurement adds its counters to those of the measurements in front of it: those of its data
/// line, for the events that were named last, under the name of its benchmark.
pub proof fn law_callgrind_adds_each_measurement(
    before: Seq<Seq<char>>,
    events: Seq<char>,
    name: Seq<char>,
    calls: Seq<char>,
    data: Seq<char>,
    path: Seq<char>,
)
    requires
        whole_measurements(before, 0),
        callgrind_stats(ContentsView { lines: before, error: None }, path) is Ok,
    ensures
        ({
            let found = callgrind_stats(ContentsView { lines: before, error: None }, path)->Ok_0;
            callgrind_stats(
                ContentsView {
                    lines: before + seq![
                        "events: "@ + events,
                        "cfn=__iai_bench_"@ + name,
                        calls,
                        data,
                    ],
                    error: None,
                },
                path,
            ) == (match data_line_values(words(events), data, path) {
                Err(error) => Err::<Map<Seq<char>, CachegrindStats>, RunnerErrorView>(error),
                Ok(values) => match counters(values) {
                    Err(message) => Err::<Map<Seq<char>, CachegrindStats>, RunnerErrorView>(
                        RunnerErrorView::ParseError(message),
                    ),
                    Ok(stats) => Ok::<Map<Seq<char>, CachegrindStats>, RunnerErrorView>(
                        found.insert(name, stats),
                    ),
                },
            })
        }),
{
    let rest = ContentsView {
        lines: seq!["events: "@ + events, "cfn=__iai_bench_"@ + name, calls, data],
        error: None,
    };
    let later = lemma_callgrind_reads_on(before, rest, path, 0, None, Map::empty());
    lemma_stripped_of_prefixed("events: "@, events);
    lemma_stripped_of_prefixed("cfn=__iai_bench_"@, name);
    lemma_events_and_functions_differ(rest.lines[1]);
    reveal_with_fuel(callgrind_stats_from, 4);
}

/// The names of the events hold until others are given: a further measurement is read as if they
/// stood in front of it again.
pub proof fn law_callgrind_events_hold_on(
    before: Seq<Seq<char>>,
    events: Seq<char>,
    measurement: Seq<Seq<char>>,
    after: Seq<Seq<char>>,
    error: Option<Seq<char>>,
    path: Seq<char>,
)
    requires
        whole_measurements(before, 0),
        callgrind_stats(ContentsView { lines: before, error: None }, path) is Ok,
        measurement.len() == 3,
        "cfn=__iai_bench_"@.is_prefix_of(measurement[0]),
    ensures
        callgrind_stats(
            ContentsView {
                lines: before + (seq!["events: "@ + events] + measurement + seq![
                    "events: "@ + events,
                ] + after),
                error,
            },
            path,
        ) == callgrind_stats(
            ContentsView {
                lines: before + (seq!["events: "@ + events] + measurement + after),
                error,
            },
            path,
        ),
{
    let line = "events: "@ + events;
    let name = measurement[0].skip("cfn=__iai_bench_"@.len() as int);
    let long = ContentsView { lines: seq![line] + measurement + seq![line] + after, error };
    let short = ContentsView { lines: seq![line] + measurement + after, error };
    let rest = ContentsView { lines: after, error };
    let found = callgrind_stats(ContentsView { lines: before, error: None }, path)->Ok_0;
    let first = lemma_callgrind_reads_on(before, long, path, 0, None, Map::empty());
    let second = lemma_callgrind_reads_on(before, short, path, 0, None, Map::empty());
    lemma_stripped_of_prefixed("events: "@, events);
    lemma_events_and_functions_differ(measurement[0]);
    let names = Some(words(events));
    assert(long.lines[1] == measurement[0] && long.lines[3] == measurement[2]);
    assert(short.lines[1] == measurement[0] && short.lines[3] == measurement[2]);
    assert(long.lines[0] == line && short.lines[0] == line && long.lines[4] == line);
    let values = data_line_values(words(events), measurement[2], path);
    if values is Ok && checked_counters(values->Ok_0) is Ok {
        let stats = checked_counters(values->Ok_0)->Ok_0;
        let more = found.insert(name, stats);
        lemma_callgrind_shifted(
            seq![line] + measurement + seq![line],
            rest,
            path,
            0,
            names,
            more,
        );
        lemma_callgrind_shifted(seq![line] + measurement, rest, path, 0, names, more);
    }
    reveal_with_fuel(callgrind_stats_from, 4);
}

/// A benchmark that is measured before the events are named is complained of, whatever follows.
pub proof fn law_callgrind_needs_the_events_first(
    before: Seq<Seq<char>>,
    name: Seq<char>,
    after: Seq<Seq<char>>,
    error: Option<Seq<char>>,
    path: Seq<char>,
)
    requires
        forall|i: int|
            0 <= i < before.len() ==> stripped(#[trigger] before[i], "events: "@) is None
                && stripped(before[i], "cfn=__iai_bench_"@) is None,
    ensures
        callgrind_stats(
            ContentsView { lines: before + (seq!["cfn=__iai_bench_"@ + name] + after), error },
            path,
        ) == Err::<Map<Seq<char>, CachegrindStats>, RunnerErrorView>(
            RunnerErrorView::ParseError(
                "Unable to parse "@ + "callgrind"@ + " output file "@ + path + ": "@
                    + "events line must appear before function data"@,
            ),
        ),
{
    let rest = ContentsView { lines: seq!["cfn=__iai_bench_"@ + name] + after, error };
    law_callgrind_skips_other_lines(before, rest, path);
    lemma_stripped_of_prefixed("cfn=__iai_bench_"@, name);
    assert(rest.lines[0] == "cfn=__iai_bench_"@ + name);
    lemma_events_and_functions_differ(rest.lines[0]);
}

/// A file of Callgrind that ends within a measurement is complained of, and where it could not be
/// read any further the reason of that is given.
pub proof fn law_callgrind_measurements_are_whole(
    before: Seq<Seq<char>>,
    events: Seq<char>,
    name: Seq<char>,
    calls: Seq<char>,
    error: Seq<char>,
    path: Seq<char>,
)
    requires
        whole_measurements(before, 0),
        callgrind_stats(ContentsView { lines: before, error: None }, path) is Ok,
    ensures
        ({
            let head = seq!["events: "@ + events, "cfn=__iai_bench_"@ + name];
            let complaint = "Unable to parse "@ + "callgrind"@ + " output file "@ + path + ": "@;
            &&& callgrind_stats(ContentsView { lines: before + head, error: None }, path) == Err::<
                Map<Seq<char>, CachegrindStats>,
                RunnerErrorView,
            >(
                RunnerErrorView::ParseError(
                    complaint + ("unexpected end of file after cfn=__iai_bench_"@ + name),
                ),
            )
            &&& callgrind_stats(
                ContentsView { lines: before + (head + seq![calls]), error: None },
                path,
            ) == Err::<Map<Seq<char>, CachegrindStats>, RunnerErrorView>(
                RunnerErrorView::ParseError(
                    complaint + ("unexpected end of file after calls line for "@ + name),
                ),
            )
            &&& callgrind_stats(
                ContentsView { lines: before + head, error: Some(error) },
                path,
            ) == Err::<Map<Seq<char>, CachegrindStats>, RunnerErrorView>(RunnerErrorView::Io(error))
            &&& callgrind_stats(
                ContentsView { lines: before + (head + seq![calls]), error: Some(error) },
                path,
            ) == Err::<Map<Seq<char>, CachegrindStats>, RunnerErrorView>(RunnerErrorView::Io(error))
        }),
{
    let head = seq!["events: "@ + events, "cfn=__iai_bench_"@ + name];
    lemma_stripped_of_prefixed("events: "@, events);
    lemma_stripped_of_prefixed("cfn=__iai_bench_"@, name);
    lemma_events_and_functions_differ(head[1]);
    let a = ContentsView { lines: head, error: None };
    let b = ContentsView { lines: head + seq![calls], error: None };
    let c = ContentsView { lines: head, error: Some(error) };
    let d = ContentsView { lines: head + seq![calls], error: Some(error) };
    let _ = lemma_callgrind_reads_on(before, a, path, 0, None, Map::empty());
    let _ = lemma_callgrind_reads_on(before, b, path, 0, None, Map::empty());
    let _ = lemma_callgrind_reads_on(before, c, path, 0, None, Map::empty());
    let _ = lemma_callgrind_reads_on(before, d, path, 0, None, Map::empty());
    reveal_with_fuel(callgrind_stats_from, 3);
}

/// A file of Callgrind that holds whole measurements but cannot be read to its end gives no counters,
/// but the reason; an empty file gives none either, but no error.
pub proof fn law_callgrind_read_errors_are_passed_on(
    lines: Seq<Seq<char>>,
    error: Seq<char>,
    path: Seq<char>,
)
    requires
        whole_measurements(lines, 0),
        callgrind_stats(ContentsView { lines, error: None }, path) is Ok,
    ensures
        callgrind_stats(ContentsView { lines, error: Some(error) }, path) == Err::<
            Map<Seq<char>, CachegrindStats>,
            RunnerErrorView,
        >(RunnerErrorView::Io(error)),
        callgrind_stats(ContentsView { lines: Seq::empty(), error: None }, path) == Ok::<
            Map<Seq<char>, CachegrindStats>,
            RunnerErrorView,
        >(Map::empty()),
{
    let rest = ContentsView { lines: Seq::empty(), error: Some(error) };
    let _ = lemma_callgrind_reads_on(lines, rest, path, 0, None, Map::empty());
    assert(lines + Seq::<Seq<char>>::empty() == lines);
}

/// An error in the first part of a file of Callgrind is not mended by what follows, where it is not
/// that the file ends.
pub proof fn law_callgrind_errors_stay(
    before: Seq<Seq<char>>,
    events: Seq<char>,
    name: Seq<char>,
    calls: Seq<char>,
    data: Seq<char>,
    after: Seq<Seq<char>>,
    error: Option<Seq<char>>,
    path: Seq<char>,
)
    requires
        whole_measurements(before, 0),
        callgrind_stats(ContentsView { lines: before, error: None }, path) is Ok,
    ensures
        ({
            let lines = seq!["events: "@ + events, "cfn=__iai_bench_"@ + name, calls, data];
            let whole = ContentsView { lines: before + (lines + after), error };
            &&& data_line_values(words(events), data, path) matches Err(e) ==> callgrind_stats(
                whole,
                path,
            ) == Err::<Map<Seq<char>, CachegrindStats>, RunnerErrorView>(e)
            &&& data_line_values(words(events), data, path) matches Ok(values) ==> {
                counters(values) matches Err(message) ==> callgrind_stats(whole, path) == Err::<
                    Map<Seq<char>, CachegrindStats>,
                    RunnerErrorView,
                >(RunnerErrorView::ParseError(message))
            }
        }),
{
    let lines = seq!["events: "@ + events, "cfn=__iai_bench_"@ + name, calls, data];
    let rest = ContentsView { lines: lines + after, error };
    let _ = lemma_callgrind_reads_on(before, rest, path, 0, None, Map::empty());
    lemma_stripped_of_prefixed("events: "@, events);
    lemma_stripped_of_prefixed("cfn=__iai_bench_"@, name);
    assert(rest.lines[0] == lines[0] && rest.lines[1] == lines[1] && rest.lines[3] == data);
    lemma_events_and_functions_differ(rest.lines[1]);
    reveal_with_fuel(callgrind_stats_from, 3);
}

/// What could be read of a file is modelled line by line.
pub proof fn law_contents_are_modelled_as_they_are(contents: FileContents, text: String)
    ensures
        contents@.lines == views(contents.lines@),
        contents.error == Some(text) ==> contents@.error == Some(text@),
        contents.error is None <==> contents@.error is None,
{
}

} // verus!
