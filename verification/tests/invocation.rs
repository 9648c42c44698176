use iai::invocation::{parse_invocation, InvocationMode, InvocationParseError};

#[test]
fn parse_invocation_parent_mode_when_no_iai_flag() {
    let args = vec!["/path/to/test".to_owned(), "bench_a".to_owned()];
    let invocation = parse_invocation(&args).expect("failed to parse parent invocation");

    assert_eq!(invocation.executable, "/path/to/test");
    assert!(matches!(invocation.mode, InvocationMode::Parent));
}

#[test]
fn parse_invocation_child_mode_extracts_index() {
    let args = vec![
        "/path/to/test".to_owned(),
        "--iai-run".to_owned(),
        "2".to_owned(),
    ];
    let invocation = parse_invocation(&args).expect("failed to parse child invocation");

    assert!(matches!(
        invocation.mode,
        InvocationMode::Child { benchmark_index: 2 }
    ));
}

#[test]
fn parse_invocation_rejects_missing_child_index() {
    let args = vec!["/path/to/test".to_owned(), "--iai-run".to_owned()];

    assert!(matches!(
        parse_invocation(&args),
        Err(InvocationParseError::MissingBenchmarkIndex)
    ));
}

#[test]
fn parse_invocation_rejects_non_numeric_child_index() {
    let args = vec![
        "/path/to/test".to_owned(),
        "--iai-run".to_owned(),
        "not-a-number".to_owned(),
    ];

    assert!(matches!(
        parse_invocation(&args),
        Err(InvocationParseError::InvalidBenchmarkIndex(_))
    ));
}

#[test]
fn an_empty_command_line_starts_the_harness() {
    let invocation = parse_invocation(&[]).expect("failed to parse empty invocation");
    assert_eq!(invocation.executable, "");
    assert_eq!(invocation.mode, InvocationMode::Parent);
}

#[test]
fn what_follows_the_index_is_ignored() {
    let args = ["bin", "--iai-run", "-1", "--iai-run", "x"].map(|arg| arg.to_owned());
    let invocation = parse_invocation(&args).expect("failed to parse child invocation");
    assert_eq!(invocation.mode, InvocationMode::Child { benchmark_index: -1 });
}

#[test]
fn the_flag_counts_in_the_first_place_only() {
    let args = ["bin", "x", "--iai-run", "1"].map(|arg| arg.to_owned());
    let invocation = parse_invocation(&args).expect("failed to parse parent invocation");
    assert_eq!(invocation.mode, InvocationMode::Parent);
}

#[test]
fn an_invocation_describes_itself() {
    let args = ["bin", "--iai-run", "-7"].map(|arg| arg.to_owned());
    assert_eq!(parse_invocation(&args).unwrap().describe(), "bin --iai-run -7");
    assert_eq!(parse_invocation(&args[..1]).unwrap().describe(), "bin");
}

#[test]
fn diagnostics_are_exact() {
    let message = |args: &[&str]| {
        let args: Vec<String> = args.iter().map(|arg| arg.to_string()).collect();
        parse_invocation(&args).unwrap_err().message()
    };
    assert_eq!(
        message(&["bin", "--iai-run"]),
        "Invalid --iai-run invocation: benchmark index is missing"
    );
    assert_eq!(
        message(&["bin", "--iai-run", ""]),
        "Invalid --iai-run invocation: benchmark index is invalid \
         (cannot parse integer from empty string)"
    );
    assert_eq!(
        message(&["bin", "--iai-run", "99999999999999999999"]),
        "Invalid --iai-run invocation: benchmark index is invalid \
         (number too large to fit in target type)"
    );
    assert_eq!(
        message(&["bin", "--iai-run", "-99999999999999999999"]),
        "Invalid --iai-run invocation: benchmark index is invalid \
         (number too small to fit in target type)"
    );
}
