use iai::error::RunnerError;
use iai::parse::{
    parse_callgrind_output, parse_cachegrind_output, parse_data_line, FileContents,
};
use iai::stats::{BenchStatsMap, CachegrindStats};
use std::io::BufRead;

const PATH: &str = "target/iai/some.out";
const EVENTS: &str = "events: Ir I1mr ILmr Dr D1mr DLmr Dw D1mw DLmw";

fn contents(text: &str) -> FileContents {
    let mut lines = Vec::new();
    for line in text.as_bytes().lines() {
        lines.push(line.unwrap());
    }
    FileContents { lines, error: None }
}

fn broken(text: &str) -> FileContents {
    FileContents {
        error: Some("it broke".to_owned()),
        ..contents(text)
    }
}

fn read_cachegrind(text: &str) -> Result<CachegrindStats, RunnerError> {
    parse_cachegrind_output(&contents(text), PATH)
}

fn read_callgrind(text: &str) -> Result<BenchStatsMap, RunnerError> {
    parse_callgrind_output(&contents(text), PATH)
}

fn failure<T>(result: Result<T, RunnerError>) -> RunnerError {
    match result {
        Ok(_) => panic!("expected parse failure"),
        Err(error) => error,
    }
}

#[test]
fn parse_cachegrind_output_parses_valid_output() {
    let parsed = read_cachegrind(
        "events: Ir I1mr ILmr Dr D1mr DLmr Dw D1mw DLmw\nsummary: 10 1 2 3 4 5 6 7 8\n",
    )
    .expect("expected parse success");

    assert_eq!(parsed.instruction_reads, 10);
    assert_eq!(parsed.instruction_l1_misses, 1);
    assert_eq!(parsed.instruction_cache_misses, 2);
    assert_eq!(parsed.data_reads, 3);
    assert_eq!(parsed.data_l1_read_misses, 4);
    assert_eq!(parsed.data_cache_read_misses, 5);
    assert_eq!(parsed.data_writes, 6);
    assert_eq!(parsed.data_l1_write_misses, 7);
    assert_eq!(parsed.data_cache_write_misses, 8);
}

#[test]
fn parse_cachegrind_output_missing_events_line() {
    let err = failure(read_cachegrind("summary: 10 1 2 3 4 5 6 7 8\n"));
    assert!(matches!(err, RunnerError::ParseError(m) if m.contains("missing events line")));
}

#[test]
fn parse_cachegrind_output_missing_summary_line() {
    let err = failure(read_cachegrind(
        "events: Ir I1mr ILmr Dr D1mr DLmr Dw D1mw DLmw\n",
    ));
    assert!(matches!(err, RunnerError::ParseError(m) if m.contains("missing summary line")));
}

#[test]
fn parse_cachegrind_output_requires_matching_token_lengths() {
    let err = failure(read_cachegrind("events: Ir I1mr ILmr\nsummary: 10 1 2 3\n"));
    assert!(matches!(err, RunnerError::ParseError(m) if m.contains("lengths do not match")));
}

#[test]
fn parse_cachegrind_output_rejects_non_numeric_data() {
    let err = failure(read_cachegrind(
        "events: Ir I1mr ILmr Dr D1mr DLmr Dw D1mw DLmw\nsummary: 10 1 a 3 4 5 6 7 8\n",
    ));
    assert!(matches!(err, RunnerError::ParseError(m) if m.contains("value 'a'")));
}

#[test]
fn parse_callgrind_output_parses_valid_output() {
    let parsed = read_callgrind(
        "events: Ir I1mr ILmr Dr D1mr DLmr Dw D1mw DLmw\n\
         cfn=__iai_bench_my_bench\n\
         calls=1 0\n\
         0 10 1 2 3 4 5 6 7 8\n",
    )
    .ok()
    .expect("expected parse success");
    let stats = parsed.get("my_bench").expect("expected my_bench");

    assert_eq!(stats.instruction_reads, 10);
    assert_eq!(stats.instruction_cache_misses, 2);
    assert_eq!(stats.data_cache_write_misses, 8);
}

#[test]
fn parse_callgrind_output_parses_multiple_benchmarks() {
    let parsed = read_callgrind(
        "events: Ir I1mr ILmr Dr D1mr DLmr Dw D1mw DLmw\n\
         cfn=__iai_bench_bench_a\n\
         calls=1 0\n\
         0 10 1 2 3 4 5 6 7 8\n\
         cfn=__iai_bench_bench_b\n\
         calls=1 0\n\
         0 20 2 4 6 8 10 12 14 16\n",
    )
    .ok()
    .expect("expected parse success");
    assert_eq!(parsed.len(), 2);
    assert_eq!(parsed.get("bench_a").unwrap().instruction_reads, 10);
    assert_eq!(parsed.get("bench_b").unwrap().instruction_reads, 20);
}

#[test]
fn parse_callgrind_output_handles_trailing_zeros_omitted() {
    let parsed = read_callgrind(
        "events: Ir I1mr ILmr Dr D1mr DLmr Dw D1mw DLmw\n\
         cfn=__iai_bench_my_bench\n\
         calls=1 0\n\
         0 42 3 1\n",
    )
    .ok()
    .expect("expected parse success");
    let stats = parsed.get("my_bench").unwrap();
    assert_eq!(stats.instruction_reads, 42);
    assert_eq!(stats.data_reads, 0);
}

#[test]
fn parse_callgrind_output_missing_events_line() {
    let err = failure(read_callgrind(
        "cfn=__iai_bench_my_bench\ncalls=1 0\n0 10 1 2 3 4 5 6 7 8\n",
    ));
    assert!(matches!(err, RunnerError::ParseError(m) if m.contains("events line")));
}

#[test]
fn cachegrind_complaints_are_exact() {
    let complaints = [
        (
            "",
            "Unable to parse cachegrind output file target/iai/some.out: missing events line",
        ),
        (
            "events: Ir\nsummary:\n",
            "Unable to parse cachegrind output file target/iai/some.out: missing summary line",
        ),
        (
            "events: Ir\nsummary: \n",
            "Unable to parse cachegrind output file target/iai/some.out: \
             events and summary lengths do not match",
        ),
        (
            "events: Ir Dr\nsummary: 1 18446744073709551616\n",
            "Unable to parse cachegrind output file target/iai/some.out: \
             value '18446744073709551616' for event 'Dr' is invalid \
             (number too large to fit in target type)",
        ),
        (
            "events: Ir Dr\nsummary: -1 2\n",
            "Unable to parse cachegrind output file target/iai/some.out: \
             value '-1' for event 'Ir' is invalid (invalid digit found in string)",
        ),
        (
            "events: Ir I1mr\nsummary: 1 2\n",
            "Missing required cachegrind event: ILmr",
        ),
    ];
    for (text, message) in complaints {
        assert_eq!(failure(read_cachegrind(text)).message(), message);
    }
}

#[test]
fn last_lines_and_last_values_count() {
    let text = format!(
        "desc: I1 cache\n{EVENTS} Ir\nsummary: 1 1 1 1 1 1 1 1 1 1\nfn=main\n\
         summary: 10 \t1 2 +3 4 5 6 7 8 0011\r\n"
    );
    let parsed = read_cachegrind(&text).unwrap();
    assert_eq!(parsed.instruction_reads, 11);
    assert_eq!(parsed.data_reads, 3);
    assert_eq!(parsed.data_cache_write_misses, 8);
}

#[test]
fn a_file_that_cannot_be_read_to_its_end_is_an_error() {
    let text = format!("{EVENTS}\nsummary: 10 1 2 3 4 5 6 7 8\n");
    let err = failure(parse_cachegrind_output(&broken(&text), PATH));
    assert!(matches!(&err, RunnerError::Io(m) if m == "it broke"));
    assert_eq!(err.message(), "I/O error: it broke");

    for text in [
        EVENTS.to_owned(),
        format!("{EVENTS}\ncfn=__iai_bench_a\n"),
        format!("{EVENTS}\ncfn=__iai_bench_a\ncalls=1 0\n"),
    ] {
        let err = failure(parse_callgrind_output(&broken(&text), PATH));
        assert!(matches!(err, RunnerError::Io(m) if m == "it broke"));
    }

    let err = failure(parse_callgrind_output(&broken("cfn=__iai_bench_a\n"), PATH));
    assert!(matches!(err, RunnerError::ParseError(_)));
}

#[test]
fn callgrind_complaints_are_exact() {
    let complaints = [
        (
            "cfn=__iai_bench_a\n".to_owned(),
            "Unable to parse callgrind output file target/iai/some.out: \
             events line must appear before function data",
        ),
        (
            format!("{EVENTS}\ncfn=__iai_bench_a\n"),
            "Unable to parse callgrind output file target/iai/some.out: \
             unexpected end of file after cfn=__iai_bench_a",
        ),
        (
            format!("{EVENTS}\ncfn=__iai_bench_a\ncalls=1 0\n"),
            "Unable to parse callgrind output file target/iai/some.out: \
             unexpected end of file after calls line for a",
        ),
        (
            format!("{EVENTS}\ncfn=__iai_bench_a\ncalls=1 0\n0 1 x\n"),
            "Unable to parse callgrind output file target/iai/some.out: \
             value 'x' for event 'I1mr' is invalid (invalid digit found in string)",
        ),
        (
            "events: Ir Dr\ncfn=__iai_bench_a\ncalls=1 0\n0 1\n".to_owned(),
            "Missing required cachegrind event: I1mr",
        ),
    ];
    for (text, message) in complaints {
        assert_eq!(failure(read_callgrind(&text)).message(), message);
    }
}

#[test]
fn callgrind_skips_other_lines_and_keeps_the_last_entry() {
    let parsed = read_callgrind(&format!(
        "version: 1\n{EVENTS}\nfn=main\n0 5\ncfn=other\ncalls=1 0\n0 7 7\n\
         cfn=__iai_bench_a\ncalls=1 0\n0 1\n\
         cfn=__iai_bench_a\ncfn=__iai_bench_b\n0 2 3 4 5 6 7 8 9 10 11 12\n"
    ))
    .ok()
    .unwrap();
    assert_eq!(parsed.len(), 1);
    let stats = parsed.get("a").unwrap();
    assert_eq!(stats.instruction_reads, 2);
    assert_eq!(stats.data_cache_write_misses, 10);
    assert!(parsed.get("b").is_none());
    assert_eq!(read_callgrind("").ok().unwrap().len(), 0);
}

#[test]
fn data_lines_give_values_by_event() {
    let events = vec!["Ir".to_owned(), "Dr".to_owned(), "Dw".to_owned()];
    let values = parse_data_line(&events, "  17 1\t2 ", PATH).ok().unwrap();
    assert_eq!(values.len(), 3);
    assert_eq!(values.get("Ir"), Some(&1));
    assert_eq!(values.get("Dr"), Some(&2));
    assert_eq!(values.get("Dw"), Some(&0));
    let values = parse_data_line(&events, "", PATH).ok().unwrap();
    assert_eq!(values.get("Ir"), Some(&0));
    let surplus = parse_data_line(&events, "+3 1 2 3 x", PATH).ok().unwrap();
    assert_eq!(surplus.get("Dw"), Some(&3));
    assert!(parse_data_line(&events, "0 1 2 x", PATH).is_err());
}
