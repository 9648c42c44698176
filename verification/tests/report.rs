use iai::report::{
    bench_report, display_grouped_by_benchmark, display_grouped_by_tool, display_single_tool,
    format_benchmark_report, BenchResult, CallgrindResults,
};
use iai::stats::{BenchStatsMap, CachegrindStats, CachegrindSummary};

fn counted(instructions: u64) -> CachegrindStats {
    CachegrindStats {
        instruction_reads: instructions,
        instruction_l1_misses: 2,
        instruction_cache_misses: 1,
        data_reads: 400,
        data_l1_read_misses: 0,
        data_cache_read_misses: 0,
        data_writes: 231,
        data_l1_write_misses: 0,
        data_cache_write_misses: 0,
    }
}

/// Counters that contradict each other: more misses than accesses.
fn contradicting() -> CachegrindStats {
    CachegrindStats {
        instruction_l1_misses: 1_000_000,
        ..counted(10)
    }
}

fn names(list: &[&str]) -> Vec<String> {
    list.iter().map(|name| name.to_string()).collect()
}

fn result(name: &str, instructions: u64) -> BenchResult {
    BenchResult {
        name: name.to_owned(),
        stats: counted(instructions),
        old_stats: None,
    }
}

fn callgrind(pairs: &[(&str, u64)]) -> CallgrindResults {
    let mut stats = BenchStatsMap::new();
    for (name, instructions) in pairs {
        stats.insert(name.to_string(), counted(*instructions));
    }
    CallgrindResults {
        stats,
        old_stats: BenchStatsMap::new(),
    }
}

fn report(name: &str, instructions: u64) -> Vec<String> {
    bench_report(name, &counted(instructions), None)
}

#[test]
fn report_has_a_line_for_each_value() {
    assert_eq!(
        report("bench_fibonacci_short", 1735),
        [
            "bench_fibonacci_short",
            "  Instructions:                1735",
            "  L1 Accesses:                 2364",
            "  L2 Accesses:                    1",
            "  RAM Accesses:                   1",
            "  Estimated Cycles:            2404",
            "",
        ]
    );
}

#[test]
fn report_shows_changes_since_the_run_before() {
    let old = CachegrindStats {
        data_reads: 400 - 236,
        instruction_l1_misses: 1,
        instruction_cache_misses: 0,
        ..counted(1735)
    };
    assert_eq!(
        bench_report("bench", &counted(1735), Some(&old)),
        [
            "bench",
            "  Instructions:                1735 (No change)",
            "  L1 Accesses:                 2364 (+11.03805%)",
            "  L2 Accesses:                    1 (No change)",
            "  RAM Accesses:                   1 (N/A)",
            "  Estimated Cycles:            2404 (+12.65230%)",
            "",
        ]
    );
}

#[test]
fn report_takes_its_summaries_as_they_are() {
    let summary = CachegrindSummary {
        l1_hits: 3,
        l3_hits: 2,
        ram_hits: 1,
    };
    let old_summary = CachegrindSummary {
        l1_hits: 6,
        l3_hits: 1,
        ram_hits: 1,
    };
    let lines = format_benchmark_report(
        "b",
        &counted(1_000_000_000_000_000_000),
        None,
        &summary,
        Some(&old_summary),
    );
    assert_eq!(
        lines,
        [
            "b",
            "  Instructions:     1000000000000000000",
            "  L1 Accesses:                    3 (-50.00000%)",
            "  L2 Accesses:                    2 (+100.0000%)",
            "  RAM Accesses:                   1 (No change)",
            "  Estimated Cycles:              48 (+4.347826%)",
            "",
        ]
    );
}

#[test]
fn one_tool_is_shown_without_headings() {
    let benches = names(&["a", "b", "c"]);
    let results = Some(vec![result("a", 10), result("b", 20)]);
    let output = display_single_tool(&benches, &results, &None);
    assert!(output.complete);
    assert_eq!(output.lines, [report("a", 10), report("b", 20)].concat());

    let results = Some(callgrind(&[("c", 30), ("other", 5), ("a", 10)]));
    let output = display_single_tool(&benches, &None, &results);
    assert!(output.complete);
    assert_eq!(output.lines, [report("a", 10), report("c", 30)].concat());

    let output = display_single_tool(&benches, &None, &None);
    assert!(output.complete);
    assert!(output.lines.is_empty());
}

#[test]
fn two_tools_are_shown_under_their_headings() {
    let benches = names(&["a", "b"]);
    let cachegrind = Some(vec![result("a", 10), result("b", 20)]);
    let callgrind = Some(callgrind(&[("b", 21), ("a", 11)]));
    let output = display_grouped_by_tool(&benches, &cachegrind, &callgrind);
    assert!(output.complete);
    assert_eq!(
        output.lines,
        [
            names(&["\n=== cachegrind ==="]),
            report("a", 10),
            report("b", 20),
            names(&["\n=== callgrind ==="]),
            report("a", 11),
            report("b", 21),
        ]
        .concat()
    );

    let output = display_grouped_by_tool(&benches, &None, &callgrind);
    assert_eq!(
        output.lines,
        [
            names(&["\n=== callgrind ==="]),
            report("a", 11),
            report("b", 21),
        ]
        .concat()
    );
}

#[test]
fn benchmarks_are_shown_with_their_tools() {
    let benches = names(&["a", "b"]);
    let cachegrind = Some(vec![result("a", 10), result("b", 20)]);
    let callgrind = Some(callgrind(&[("b", 21)]));
    let output = display_grouped_by_benchmark(&benches, &cachegrind, &callgrind);
    assert!(output.complete);
    assert_eq!(
        output.lines,
        [
            report("a [cachegrind]", 10),
            report("b [cachegrind]", 20),
            report("b [callgrind]", 21),
        ]
        .concat()
    );

    let output = display_grouped_by_benchmark(&benches, &None, &callgrind);
    assert_eq!(output.lines, report("b [callgrind]", 21));
}

#[test]
fn of_two_benchmarks_with_one_name_the_first_is_shown() {
    let benches = names(&["a", "a"]);
    let cachegrind = Some(vec![result("a", 10), result("a", 20)]);
    let output = display_grouped_by_benchmark(&benches, &cachegrind, &None);
    assert_eq!(
        output.lines,
        [report("a [cachegrind]", 10), report("a [cachegrind]", 10)].concat()
    );
}

#[test]
fn old_results_of_callgrind_are_compared_by_name() {
    let benches = names(&["a", "b"]);
    let mut results = callgrind(&[("a", 10), ("b", 20)]);
    results.old_stats.insert("b".to_owned(), counted(20));
    let output = display_single_tool(&benches, &None, &Some(results));
    assert_eq!(output.lines[..7], report("a", 10));
    assert_eq!(output.lines[8], "  Instructions:                  20 (No change)");
}

#[test]
fn output_ends_in_front_of_what_cannot_be_reported() {
    let benches = names(&["a", "b", "c"]);
    let bad = BenchResult {
        stats: contradicting(),
        ..result("b", 20)
    };
    let cachegrind = Some(vec![result("a", 10), bad, result("c", 30)]);
    let callgrind = Some(callgrind(&[("a", 11)]));
    let output = display_grouped_by_tool(&benches, &cachegrind, &callgrind);
    assert!(!output.complete);
    assert_eq!(
        output.lines,
        [names(&["\n=== cachegrind ==="]), report("a", 10)].concat()
    );
    let output = display_grouped_by_benchmark(&benches, &cachegrind, &callgrind);
    assert!(!output.complete);
    assert_eq!(
        output.lines,
        [report("a [cachegrind]", 10), report("a [callgrind]", 11)].concat()
    );

    let bad_old = BenchResult {
        old_stats: Some(contradicting()),
        ..result("a", 10)
    };
    let output = display_single_tool(&benches, &Some(vec![bad_old]), &None);
    assert!(!output.complete);
    assert!(output.lines.is_empty());
}
