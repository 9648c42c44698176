use iai::command::{CommandLine, Platform};
use iai::parse::FileContents;
use iai::protocol::{Action, Reply};
use iai::runner;
use iai::session::Config;
use std::cell::Cell;
use std::collections::{BTreeMap, BTreeSet};

const EVENTS: &str = "events: Ir I1mr ILmr Dr D1mr DLmr Dw D1mw DLmw";

/// What goes wrong.
#[derive(Clone, Copy, PartialEq)]
enum Trouble {
    Nothing,
    NoValgrind,
    ProbeFails,
    NoDirectory,
    NoCopy,
    CannotStart(&'static str),
    Crashes(&'static str),
    WritesNothing,
    WritesRubbish,
    ReadBreaks,
    Contradicts,
}

/// A world in which profilers write the instructions that the benchmarks take.
struct World {
    variables: BTreeSet<&'static str>,
    files: BTreeMap<String, String>,
    directories: Vec<String>,
    instructions: Vec<(&'static str, u64)>,
    trouble: Trouble,
    probes: usize,
    commands: Vec<Vec<String>>,
    runs: Vec<usize>,
    printed: Vec<String>,
    errors: Vec<String>,
    steps: usize,
    aborted: bool,
}

impl World {
    fn new(instructions: &[(&'static str, u64)]) -> World {
        World {
            variables: BTreeSet::new(),
            files: BTreeMap::new(),
            directories: Vec::new(),
            instructions: instructions.to_vec(),
            trouble: Trouble::Nothing,
            probes: 0,
            commands: Vec::new(),
            runs: Vec::new(),
            printed: Vec::new(),
            errors: Vec::new(),
            steps: 0,
            aborted: false,
        }
    }

    fn counters(&self, instructions: u64) -> String {
        if self.trouble == Trouble::Contradicts {
            format!("{instructions} 5000000 0 0 0 0 0 0 0")
        } else {
            format!("{instructions} 2 1 400 0 0 231 0 0")
        }
    }

    fn write_output(&mut self, command: &CommandLine) {
        let mut output = String::new();
        for arg in &command.args {
            if let Some(path) = arg.strip_prefix("--cachegrind-out-file=") {
                output = path.to_owned();
            }
            if let Some(path) = arg.strip_prefix("--callgrind-out-file=") {
                output = path.to_owned();
            }
        }
        let text = if command.args.contains(&"--tool=cachegrind".to_owned()) {
            let index: isize = command.args.last().unwrap().parse().unwrap();
            let own = if index < 0 {
                0
            } else {
                self.instructions[index as usize].1
            };
            let counters = self.counters(1000 + own).replace(" 2 1 400 0 0 231", " 3 2 500 0 0 331");
            let counters = if index < 0 {
                "1000 1 1 100 0 0 100 0 0".to_owned()
            } else {
                counters
            };
            format!("desc: cachegrind\n{EVENTS}\nfn=main\nsummary: {counters}\n")
        } else {
            let mut text = format!("# callgrind format\n{EVENTS}\n");
            for (name, own) in &self.instructions {
                text += &format!(
                    "cfn=__iai_bench_{name}\ncalls=1 0\n0 {}\n",
                    self.counters(own + 1)
                );
            }
            text
        };
        match self.trouble {
            Trouble::WritesNothing => {}
            Trouble::WritesRubbish => {
                self.files.insert(output, "rubbish\n".to_owned());
            }
            _ => {
                self.files.insert(output, text);
            }
        }
    }

    fn perform(&mut self, action: Action) -> Option<Reply> {
        self.steps += 1;
        Some(match action {
            Action::RunBenchmark { index } => {
                self.runs.push(index);
                Reply::Done
            }
            Action::ReadVariable { name } => Reply::Answer(self.variables.contains(name.as_str())),
            Action::Probe { command } => {
                self.probes += 1;
                assert_eq!(command.program, "valgrind");
                match self.trouble {
                    Trouble::NoValgrind => Reply::Failed("valgrind not available".to_owned()),
                    Trouble::ProbeFails => Reply::Exited {
                        success: false,
                        status: "exit status: 1".to_owned(),
                    },
                    _ => Reply::Exited {
                        success: true,
                        status: "exit status: 0".to_owned(),
                    },
                }
            }
            Action::CreateDirectory { path } => {
                if self.trouble == Trouble::NoDirectory {
                    Reply::Failed("no directory".to_owned())
                } else {
                    self.directories.push(path);
                    Reply::Done
                }
            }
            Action::FileExists { path } => Reply::Answer(self.files.contains_key(&path)),
            Action::CopyFile { from, to } => {
                if self.trouble == Trouble::NoCopy {
                    Reply::Failed("no copy".to_owned())
                } else {
                    let text = self.files[&from].clone();
                    self.files.insert(to, text);
                    Reply::Done
                }
            }
            Action::RunCommand { command } => {
                let mut words = vec![command.program.clone()];
                words.extend(command.args.iter().cloned());
                self.commands.push(words.clone());
                let of = |tool: &str| words.contains(&format!("--tool={tool}"));
                match self.trouble {
                    Trouble::CannotStart(tool) if of(tool) => {
                        Reply::Failed("cannot start".to_owned())
                    }
                    Trouble::Crashes(tool) if of(tool) => Reply::Exited {
                        success: false,
                        status: "signal: 11".to_owned(),
                    },
                    _ => {
                        self.write_output(&command);
                        Reply::Exited {
                            success: true,
                            status: "exit status: 0".to_owned(),
                        }
                    }
                }
            }
            Action::ReadFile { path } => match self.files.get(&path) {
                Some(text) => Reply::Contents(FileContents {
                    lines: text.lines().map(|line| line.to_owned()).collect(),
                    error: if self.trouble == Trouble::ReadBreaks {
                        Some("stream did not contain valid UTF-8".to_owned())
                    } else {
                        None
                    },
                }),
                None => Reply::Failed("no such file".to_owned()),
            },
            Action::PrintError { message } => {
                self.errors.push(message);
                Reply::Done
            }
            Action::Print { lines } => {
                self.printed.extend(lines);
                Reply::Done
            }
            Action::Abort => {
                self.aborted = true;
                return None;
            }
            Action::Finish => return None,
        })
    }

    fn run(&mut self, cachegrind: bool, callgrind: bool, args: &[&str]) {
        let config = Config {
            cachegrind,
            callgrind,
            platform: Platform::Linux,
            arch: "x86_64".to_owned(),
        };
        let names = self.instructions.iter().map(|(name, _)| name.to_string()).collect();
        let args: Vec<String> = args.iter().map(|arg| arg.to_string()).collect();
        let (mut session, mut action) = runner(config, names, &args);
        while let Some(reply) = self.perform(action) {
            (session, action) = session.step(reply);
        }
    }
}

fn two() -> World {
    World::new(&[("bench_one", 735), ("bench_two", 26213735)])
}

/// A report with the counters of `World::counters`.
fn report(name: &str, instructions: u64) -> Vec<String> {
    let l1 = instructions + 629;
    vec![
        name.to_owned(),
        format!("  Instructions:     {instructions:>15}"),
        format!("  L1 Accesses:      {l1:>15}"),
        format!("  L2 Accesses:      {:>15}", 1),
        format!("  RAM Accesses:     {:>15}", 1),
        format!("  Estimated Cycles: {:>15}", l1 + 40),
        String::new(),
    ]
}

/// Runs the benchmarks that a session asks for, in a system without Valgrind.
fn run_with_fake_system(
    benches: &[(&str, &dyn Fn())],
    output_calls: &Cell<usize>,
    args: Vec<String>,
) {
    let config = Config {
        cachegrind: true,
        callgrind: true,
        platform: Platform::Linux,
        arch: "x86_64".to_owned(),
    };
    let names = benches.iter().map(|(name, _)| name.to_string()).collect();
    let (mut session, mut action) = runner(config, names, &args);
    loop {
        let reply = match action {
            Action::RunBenchmark { index } => {
                (benches[index].1)();
                Reply::Done
            }
            Action::ReadVariable { .. } | Action::FileExists { .. } => Reply::Answer(false),
            Action::Probe { .. } => {
                output_calls.set(output_calls.get() + 1);
                Reply::Failed("valgrind not available".to_owned())
            }
            Action::CreateDirectory { .. } | Action::CopyFile { .. } => Reply::Done,
            Action::RunCommand { .. } => Reply::Failed("not used in this test".to_owned()),
            Action::ReadFile { .. } => Reply::Failed("not found".to_owned()),
            Action::PrintError { .. } | Action::Print { .. } => Reply::Done,
            Action::Abort => panic!("aborted"),
            Action::Finish => return,
        };
        (session, action) = session.step(reply);
    }
}

#[test]
fn runner_child_indexed_mode_dispatches_selected_benchmark() {
    let one = Cell::new(0);
    let two = Cell::new(0);
    let output_calls = Cell::new(0);
    run_with_fake_system(
        &[
            ("bench_one", &|| one.set(one.get() + 1)),
            ("bench_two", &|| two.set(two.get() + 1)),
        ],
        &output_calls,
        vec![
            "iai-binary".to_owned(),
            "--iai-run".to_owned(),
            "1".to_owned(),
        ],
    );

    assert_eq!(one.get(), 0);
    assert_eq!(two.get(), 1);
    assert_eq!(output_calls.get(), 0);
}

#[test]
fn runner_child_mode_dispatches_all_benchmarks() {
    let one = Cell::new(0);
    let two = Cell::new(0);
    let output_calls = Cell::new(0);
    run_with_fake_system(
        &[
            ("bench_one", &|| one.set(one.get() + 1)),
            ("bench_two", &|| two.set(two.get() + 1)),
        ],
        &output_calls,
        vec!["iai-binary".to_owned(), "--iai-run".to_owned()],
    );

    assert_eq!(one.get(), 1);
    assert_eq!(two.get(), 1);
    assert_eq!(output_calls.get(), 0);
}

#[test]
fn runner_parent_mode_does_not_dispatch_benchmarks_if_valgrind_missing() {
    let one = Cell::new(0);
    let two = Cell::new(0);
    let output_calls = Cell::new(0);
    run_with_fake_system(
        &[
            ("bench_one", &|| one.set(one.get() + 1)),
            ("bench_two", &|| two.set(two.get() + 1)),
        ],
        &output_calls,
        vec!["iai-binary".to_owned()],
    );

    assert_eq!(one.get(), 0);
    assert_eq!(two.get(), 0);
    // The first probe that fails ends the run.
    assert_eq!(output_calls.get(), 1);
}

#[test]
fn probes_depend_on_the_tools() {
    for (cachegrind, callgrind, expected) in [
        (true, true, 1),
        (true, false, 1),
        (false, true, 1),
        (false, false, 0),
    ] {
        let mut world = two();
        world.trouble = Trouble::NoValgrind;
        world.run(cachegrind, callgrind, &["bin"]);
        assert_eq!(world.probes, expected);
        assert!(world.runs.is_empty());
        assert!(world.commands.is_empty());
        assert!(world.printed.is_empty());
    }
}

#[test]
fn children_run_what_they_are_told() {
    for (cachegrind, callgrind, args, runs, errors) in [
        (true, false, vec!["bin", "--iai-run", "0", "x"], vec![0], vec![]),
        (true, false, vec!["bin", "--iai-run", "-1"], vec![], vec![]),
        (true, false, vec!["bin", "--iai-run", "2"], vec![], vec![]),
        (
            false,
            true,
            vec!["bin", "--iai-run", "0"],
            vec![],
            vec!["Indexed child mode requires the 'cachegrind' feature"],
        ),
        (
            true,
            false,
            vec!["bin", "--iai-run"],
            vec![],
            vec!["Child mode requires the 'callgrind' feature"],
        ),
        (
            true,
            true,
            vec!["bin", "--iai-run", "x"],
            vec![],
            vec![
                "Invalid --iai-run invocation: benchmark index is invalid \
                 (invalid digit found in string)",
            ],
        ),
        (false, true, vec!["bin", "--iai-run"], vec![0, 1], vec![]),
    ] {
        let mut world = two();
        world.run(cachegrind, callgrind, &args);
        assert_eq!(world.runs, runs);
        assert_eq!(world.errors, errors);
        assert_eq!(world.probes, 0);
        assert!(world.printed.is_empty());
    }
}

#[test]
fn no_benchmarks_need_no_child() {
    let mut world = World::new(&[]);
    world.run(false, true, &["bin", "--iai-run"]);
    assert!(world.runs.is_empty());
    world.run(true, true, &["bin"]);
    assert_eq!(world.commands.len(), 2);
    assert_eq!(
        world.printed,
        ["\n=== cachegrind ===", "\n=== callgrind ==="]
    );
}

#[test]
fn cachegrind_measures_each_benchmark_less_the_calibration() {
    let mut world = two();
    world.run(true, false, &["bin", "bench"]);
    assert_eq!(world.errors, Vec::<String>::new());
    assert_eq!(
        world.printed,
        [report("bench_one", 735), report("bench_two", 26213735)].concat()
    );
    assert!(world.runs.is_empty());
    assert_eq!(world.commands.len(), 3);
    for (command, index) in world.commands.iter().zip(["-1", "0", "1"]) {
        assert_eq!(command[..4], ["setarch", "x86_64", "-R", "valgrind"]);
        assert!(command.contains(&"--cache-sim=yes".to_owned()));
        assert_eq!(command[command.len() - 3..], ["bin", "--iai-run", index]);
    }
    assert_eq!(world.directories, ["target/iai"; 3]);
    let files: Vec<&String> = world.files.keys().collect();
    assert_eq!(
        files,
        [
            "target/iai/cachegrind.out.bench_one",
            "target/iai/cachegrind.out.bench_two",
            "target/iai/cachegrind.out.iai_calibration",
        ]
    );
}

#[test]
fn second_run_is_compared_with_the_first() {
    let mut world = two();
    world.run(true, false, &["bin"]);
    world.printed.clear();
    world.instructions[0].1 = 1470;
    world.run(true, false, &["bin"]);
    assert_eq!(world.printed[1], "  Instructions:                1470 (+100.0000%)");
    assert_eq!(world.printed[8], "  Instructions:            26213735 (No change)");
    assert!(world.files["target/iai/cachegrind.out.bench_one.old"].contains("1735 "));
    assert_eq!(world.files.len(), 6);
}

#[test]
fn each_run_is_compared_with_the_one_immediately_before() {
    for (cachegrind, callgrind) in [(true, false), (false, true)] {
        let mut world = two();
        for (instructions, change) in [(1000, ""), (2000, "+"), (1500, "-"), (1500, "No change")] {
            // Callgrind counts one instruction more.
            world.instructions[0].1 = instructions - callgrind as u64;
            world.printed.clear();
            world.run(cachegrind, callgrind, &["bin"]);
            let line = format!("  Instructions:     {instructions:>15}");
            let rest = world.printed[1].strip_prefix(&line).unwrap();
            match change {
                "" => assert_eq!(rest, ""),
                "+" => assert_eq!(rest, " (+100.0000%)"),
                "-" => assert_eq!(rest, " (-25.00000%)"),
                _ => assert_eq!(rest, " (No change)"),
            }
        }
    }
}

#[test]
fn without_an_old_calibration_nothing_is_compared() {
    let mut world = two();
    world.run(true, false, &["bin"]);
    world.files.remove("target/iai/cachegrind.out.iai_calibration");
    world.printed.clear();
    world.run(true, false, &["bin"]);
    assert_eq!(
        world.printed,
        [report("bench_one", 735), report("bench_two", 26213735)].concat()
    );
}

#[test]
fn callgrind_measures_all_benchmarks_at_once() {
    let mut world = two();
    world.variables.insert("IAI_ALLOW_ASLR");
    world.run(false, true, &["bin"]);
    assert_eq!(
        world.printed,
        [report("bench_one", 736), report("bench_two", 26213736)].concat()
    );
    assert_eq!(world.commands.len(), 1);
    let command = &world.commands[0];
    assert_eq!(command[0], "valgrind");
    assert!(command.contains(&"--toggle-collect=__iai_bench_bench_one".to_owned()));
    assert!(command.contains(&"--toggle-collect=__iai_bench_bench_two".to_owned()));
    assert_eq!(command[command.len() - 2..], ["bin", "--iai-run"]);

    world.printed.clear();
    world.run(false, true, &["bin"]);
    assert_eq!(world.printed[1], "  Instructions:                 736 (No change)");
    assert!(world.files.contains_key("target/iai/callgrind.out.old"));
}

#[test]
fn both_tools_are_grouped_as_the_environment_asks() {
    let mut world = two();
    world.run(true, true, &["bin"]);
    assert_eq!(world.commands.len(), 4);
    assert_eq!(world.probes, 2);
    assert_eq!(
        world.printed,
        [
            vec!["\n=== cachegrind ===".to_owned()],
            report("bench_one", 735),
            report("bench_two", 26213735),
            vec!["\n=== callgrind ===".to_owned()],
            report("bench_one", 736),
            report("bench_two", 26213736),
        ]
        .concat()
    );

    let mut world = two();
    world.variables.insert("IAI_GROUP_BY_BENCHMARK");
    world.run(true, true, &["bin"]);
    assert_eq!(
        world.printed,
        [
            report("bench_one [cachegrind]", 735),
            report("bench_one [callgrind]", 736),
            report("bench_two [cachegrind]", 26213735),
            report("bench_two [callgrind]", 26213736),
        ]
        .concat()
    );

    let mut world = two();
    world.variables.insert("IAI_GROUP_BY_BENCHMARK");
    world.run(true, false, &["bin"]);
    assert_eq!(world.printed[0], "bench_one");
}

#[test]
fn failures_of_the_probe_end_the_run() {
    let mut world = two();
    world.trouble = Trouble::NoValgrind;
    world.run(true, true, &["bin"]);
    assert_eq!(
        world.errors,
        ["Unexpected error while launching valgrind: valgrind not available"]
    );

    let mut world = two();
    world.trouble = Trouble::ProbeFails;
    world.run(false, true, &["bin"]);
    assert_eq!(
        world.errors,
        ["Failed to launch valgrind (--tool=callgrind): exit status: 1. \
          Please ensure that valgrind is installed and on the $PATH."]
    );
    assert!(world.commands.is_empty());
}

#[test]
fn failures_of_a_tool_are_said() {
    let missing = "Unable to parse cachegrind output file \
                   target/iai/cachegrind.out.iai_calibration: missing events line";
    for (trouble, message) in [
        (Trouble::NoDirectory, "I/O error: no directory"),
        (Trouble::CannotStart("cachegrind"), "I/O error: cannot start"),
        (Trouble::Crashes("cachegrind"), "Command failed: signal: 11"),
        (Trouble::WritesNothing, "I/O error: no such file"),
        (Trouble::WritesRubbish, missing),
        (
            Trouble::ReadBreaks,
            "I/O error: stream did not contain valid UTF-8",
        ),
    ] {
        let mut world = two();
        world.trouble = trouble;
        world.run(true, false, &["bin"]);
        assert_eq!(world.errors, [format!("Cachegrind failed: {message}")]);
        assert!(world.printed.is_empty());
    }

    let mut world = two();
    world.run(true, false, &["bin"]);
    world.printed.clear();
    world.trouble = Trouble::NoCopy;
    world.run(true, false, &["bin"]);
    assert_eq!(world.errors, ["Cachegrind failed: I/O error: no copy"]);
    assert!(world.printed.is_empty());
}

#[test]
fn a_tool_that_fails_does_not_stop_the_other() {
    let mut world = two();
    world.trouble = Trouble::Crashes("cachegrind");
    world.run(true, true, &["bin"]);
    assert_eq!(world.errors, ["Cachegrind failed: Command failed: signal: 11"]);
    assert_eq!(world.commands.len(), 2);
    assert_eq!(
        world.printed,
        [
            vec!["\n=== callgrind ===".to_owned()],
            report("bench_one", 736),
            report("bench_two", 26213736),
        ]
        .concat()
    );

    let mut world = two();
    world.trouble = Trouble::CannotStart("callgrind");
    world.run(true, true, &["bin"]);
    assert_eq!(world.errors, ["Callgrind failed: I/O error: cannot start"]);
    assert_eq!(
        world.printed,
        [
            vec!["\n=== cachegrind ===".to_owned()],
            report("bench_one", 735),
            report("bench_two", 26213735),
        ]
        .concat()
    );
}

#[test]
fn contradicting_counters_end_in_a_panic() {
    let mut world = two();
    world.trouble = Trouble::Contradicts;
    world.run(false, true, &["bin"]);
    assert!(world.aborted);
    assert!(world.printed.is_empty());
}

#[test]
fn without_tools_nothing_is_done() {
    let mut world = two();
    world.run(false, false, &["bin"]);
    assert_eq!(world.probes, 0);
    assert!(world.commands.is_empty());
    assert!(world.printed.is_empty());
    assert!(world.errors.is_empty());
}

#[test]
fn runs_end_within_their_bound() {
    let mut world = two();
    world.run(true, true, &["bin"]);
    world.steps = 0;
    world.run(true, true, &["bin"]);
    // Two questions, two probes, seven steps for each of four profilers, the output and the end.
    assert_eq!(world.steps, 2 + 2 + 7 * 4 + 1 + 1);
    assert!(world.steps - 1 <= 21 + 7 * 2);
}

#[test]
fn a_reply_to_something_else_changes_nothing() {
    let config = Config {
        cachegrind: true,
        callgrind: true,
        platform: Platform::Other,
        arch: "x86_64".to_owned(),
    };
    let (session, action) = runner(config, vec!["a".to_owned()], &["bin".to_owned()]);
    assert!(matches!(&action, Action::ReadVariable { name } if name == "IAI_ALLOW_ASLR"));
    let (session, action) = session.step(Reply::Done);
    assert!(matches!(&action, Action::ReadVariable { name } if name == "IAI_ALLOW_ASLR"));
    let (session, action) = session.step(Reply::Answer(false));
    assert!(matches!(&action, Action::ReadVariable { name } if name == "IAI_GROUP_BY_BENCHMARK"));
    let (session, action) = session.step(Reply::Answer(false));
    assert!(matches!(&action, Action::Probe { .. }));
    let (session, action) = session.step(Reply::Answer(true));
    assert!(matches!(&action, Action::Probe { .. }));
    assert!(matches!(session.action(), Action::Probe { .. }));
}
