use iai::command::{
    cachegrind, callgrind, probe_command, valgrind, CachegrindRun, CommandLine, Platform,
};
use iai::tool::Tool;

fn words(command: &CommandLine) -> Vec<&str> {
    let mut words = vec![command.program.as_str()];
    words.extend(command.args.iter().map(|arg| arg.as_str()));
    words
}

#[test]
fn tools_are_probed_for_their_version() {
    assert_eq!(
        words(&probe_command(Tool::Cachegrind)),
        ["valgrind", "--tool=cachegrind", "--version"]
    );
    assert_eq!(
        words(&probe_command(Tool::Callgrind)),
        ["valgrind", "--tool=callgrind", "--version"]
    );
}

#[test]
fn addresses_are_not_randomised_unless_allowed() {
    assert_eq!(
        words(&valgrind(Platform::Linux, "x86_64", false)),
        ["setarch", "x86_64", "-R", "valgrind"]
    );
    assert_eq!(
        words(&valgrind(Platform::FreeBsd, "x86_64", false)),
        ["proccontrol", "-m", "aslr", "-s", "disable"]
    );
    assert_eq!(words(&valgrind(Platform::Other, "x86_64", false)), ["valgrind"]);
    for platform in [Platform::Linux, Platform::FreeBsd, Platform::Other] {
        assert_eq!(words(&valgrind(platform, "x86_64", true)), ["valgrind"]);
    }
}

#[test]
fn cachegrind_starts_the_binary_with_an_index() {
    let launch = valgrind(Platform::Linux, "aarch64", false);
    let command = cachegrind(launch, "target/iai/cachegrind.out.a", "./bin", CachegrindRun::Benchmark(12));
    assert_eq!(
        words(&command),
        [
            "setarch",
            "aarch64",
            "-R",
            "valgrind",
            "--tool=cachegrind",
            "--cache-sim=yes",
            "--I1=32768,8,64",
            "--D1=32768,8,64",
            "--LL=8388608,16,64",
            "--cachegrind-out-file=target/iai/cachegrind.out.a",
            "./bin",
            "--iai-run",
            "12",
        ]
    );
    let launch = valgrind(Platform::Other, "", true);
    let command = cachegrind(launch, "out", "./bin", CachegrindRun::Calibration);
    assert_eq!(command.args[command.args.len() - 3..], ["./bin", "--iai-run", "-1"]);
}

#[test]
fn callgrind_collects_the_benchmarks_alone() {
    let names = vec!["a".to_owned(), "b".to_owned()];
    let launch = valgrind(Platform::Linux, "x86_64", true);
    let command = callgrind(launch, "target/iai/callgrind.out", "./bin", &names);
    assert_eq!(
        words(&command),
        [
            "valgrind",
            "--tool=callgrind",
            "--cache-sim=yes",
            "--I1=32768,8,64",
            "--D1=32768,8,64",
            "--LL=8388608,16,64",
            "--callgrind-out-file=target/iai/callgrind.out",
            "--compress-strings=no",
            "--compress-pos=no",
            "--collect-atstart=no",
            "--toggle-collect=__iai_bench_a",
            "--toggle-collect=__iai_bench_b",
            "./bin",
            "--iai-run",
        ]
    );
}
