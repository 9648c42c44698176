//! The commands with which Valgrind is started, and the files that it writes.

use crate::error::RunnerError;
#[allow(unused_imports)]
use crate::error::RunnerErrorView;
use crate::number::append_decimal;
#[allow(unused_imports)]
use crate::number::{decimal, law_only_negative_numbers_have_a_sign, signed_decimal};
use crate::paths::{parent, with_file_name};
#[allow(unused_imports)]
use crate::paths::{
    base_start, law_file_lies_in_its_directory, lemma_base_is_behind_separators,
    lemma_trimmed_keeps_prefix, lemma_trimmed_keeps_start, parent_of, renamed, trimmed,
};
#[allow(unused_imports)]
use crate::text::views;
use crate::tool::Tool;
use vstd::prelude::*;

verus! {

/// The operating systems that differ in how the randomisation of addresses is switched off.
#[derive(Clone, Copy, Debug, PartialEq, Eq, Structural)]
pub enum Platform {
    Linux,
    FreeBsd,
    Other,
}

/// A program and its arguments. Its output is discarded.
#[derive(Debug)]
pub struct CommandLine {
    pub program: String,
    pub args: Vec<String>,
}

/// The model of a `CommandLine`.
pub struct CommandView {
    pub program: Seq<char>,
    pub args: Seq<Seq<char>>,
}

impl View for CommandLine {
    type V = CommandView;

    open spec fn view(&self) -> CommandView {
        CommandView { program: self.program@, args: views(self.args@) }
    }
}

/// The files of a profiling run.
#[derive(Debug)]
pub struct OutputFiles {
    /// The directory of the output file.
    pub directory: String,
    /// What the profiler writes.
    pub output: String,
    /// Where the output of the run before is kept.
    pub old_output: String,
}

/// The model of `OutputFiles`.
pub struct OutputFilesView {
    pub directory: Seq<char>,
    pub output: Seq<char>,
    pub old_output: Seq<char>,
}

impl View for OutputFiles {
    type V = OutputFilesView;

    open spec fn view(&self) -> OutputFilesView {
        OutputFilesView {
            directory: self.directory@,
            output: self.output@,
            old_output: self.old_output@,
        }
    }
}

/// Which run of Cachegrind it is.
#[derive(Clone, Copy, Debug, PartialEq, Eq, Structural)]
pub enum CachegrindRun {
    /// A run of no benchmark, which measures the harness itself.
    Calibration,
    /// The run of the benchmark with this index.
    Benchmark(usize),
}

impl CachegrindRun {
    /// The index that the child process is started with.
    pub open spec fn index(self) -> int {
        match self {
            CachegrindRun::Calibration => -1,
            CachegrindRun::Benchmark(index) => index as int,
        }
    }

    /// The name under which the output of the run is kept.
    pub open spec fn name(self, names: Seq<Seq<char>>) -> Seq<char> {
        match self {
            CachegrindRun::Calibration => "iai_calibration"@,
            CachegrindRun::Benchmark(index) => names[index as int],
        }
    }
}

/// The command that asks whether Valgrind and one of its tools can be started.
pub open spec fn probe(tool: Tool) -> CommandView {
    CommandView { program: "valgrind"@, args: seq!["--tool="@ + tool.text(), "--version"@] }
}

/// How Valgrind is started: as it is, or with the randomisation of addresses switched off.
pub open spec fn launcher(platform: Platform, arch: Seq<char>, allow_aslr: bool) -> CommandView {
    if allow_aslr {
        CommandView { program: "valgrind"@, args: Seq::empty() }
    } else {
        match platform {
            Platform::Linux => CommandView {
                program: "setarch"@,
                args: seq![arch, "-R"@, "valgrind"@],
            },
            Platform::FreeBsd => CommandView {
                program: "proccontrol"@,
                args: seq!["-m"@, "aslr"@, "-s"@, "disable"@],
            },
            Platform::Other => CommandView { program: "valgrind"@, args: Seq::empty() },
        }
    }
}

/// The options that both tools have in common.
pub open spec fn options(tool: Tool, output: Seq<char>) -> Seq<Seq<char>> {
    seq![
        "--tool="@ + tool.text(),
        "--cache-sim=yes"@,
        "--I1=32768,8,64"@,
        "--D1=32768,8,64"@,
        "--LL=8388608,16,64"@,
        "--"@ + tool.text() + "-out-file="@ + output,
    ]
}

/// The options by which Callgrind writes full names and measures only the benchmarks `names`.
pub open spec fn collection_options(names: Seq<Seq<char>>) -> Seq<Seq<char>> {
    seq!["--compress-strings=no"@, "--compress-pos=no"@, "--collect-atstart=no"@]
        + names.map_values(|name: Seq<char>| "--toggle-collect=__iai_bench_"@ + name)
}

/// The command that runs one benchmark, or none, under Cachegrind.
pub open spec fn cachegrind_command(
    launcher: CommandView,
    output: Seq<char>,
    executable: Seq<char>,
    run: CachegrindRun,
) -> CommandView {
    CommandView {
        program: launcher.program,
        args: launcher.args + options(Tool::Cachegrind, output) + seq![
            executable,
            "--iai-run"@,
            signed_decimal(run.index()),
        ],
    }
}

/// The command that runs all benchmarks under Callgrind.
pub open spec fn callgrind_command(
    launcher: CommandView,
    output: Seq<char>,
    executable: Seq<char>,
    names: Seq<Seq<char>>,
) -> CommandView {
    CommandView {
        program: launcher.program,
        args: launcher.args + options(Tool::Callgrind, output) + collection_options(names) + seq![
            executable,
            "--iai-run"@,
        ],
    }
}

/// The files of a run whose output is `output` and whose earlier output has the name `old_name`.
pub open spec fn files_of(output: Seq<char>, old_name: Seq<char>) -> Result<
    OutputFilesView,
    RunnerErrorView,
> {
    match parent_of(output) {
        Some(directory) => Ok(
            OutputFilesView { directory, output, old_output: renamed(output, old_name) },
        ),
        None => Err(RunnerErrorView::InvalidOutputPath(output)),
    }
}

/// The files of a run of Cachegrind.
pub open spec fn cachegrind_files(name: Seq<char>) -> Result<OutputFilesView, RunnerErrorView> {
    files_of("target/iai/cachegrind.out."@ + name, "cachegrind.out."@ + name + ".old"@)
}

/// The files of the run of Callgrind.
pub open spec fn callgrind_files() -> Result<OutputFilesView, RunnerErrorView> {
    files_of("target/iai/callgrind.out"@, "callgrind.out.old"@)
}

/// Appends a copy of `text` to `list`.
fn push_text(list: &mut Vec<String>, text: &str)
    ensures
        views(final(list)@) == views(old(list)@).push(text@),
{
    list.push(text.to_owned());
    assert(views(list@) == views(old(list)@).push(text@));
}

/// Appends the string that consists of `first` and `second` to `list`.
fn push_joined(list: &mut Vec<String>, first: &str, second: &str)
    ensures
        views(final(list)@) == views(old(list)@).push(first@ + second@),
{
    let mut text: String = first.to_owned();
    text.append(second);
    list.push(text);
    assert(views(list@) == views(old(list)@).push(first@ + second@));
}

/// The command that asks whether Valgrind and one of its tools can be started.
pub fn probe_command(tool: Tool) -> (r: CommandLine)
    ensures
        r@ == probe(tool),
{
    let mut args: Vec<String> = Vec::new();
    push_joined(&mut args, "--tool=", tool.name());
    push_text(&mut args, "--version");
    assert(views(args@) == probe(tool).args);
    CommandLine { program: "valgrind".to_owned(), args }
}

/// Valgrind as it is.
fn basic_valgrind() -> (r: CommandLine)
    ensures
        r@.program == "valgrind"@,
        r@.args == Seq::<Seq<char>>::empty(),
{
    CommandLine { program: "valgrind".to_owned(), args: Vec::new() }
}

/// Valgrind with the randomisation of addresses switched off, as far as the platform can.
fn valgrind_without_aslr(platform: Platform, arch: &str) -> (r: CommandLine)
    ensures
        r@ == launcher(platform, arch@, false),
{
    match platform {
        Platform::Linux => {
            let mut args: Vec<String> = Vec::new();
            push_text(&mut args, arch);
            push_text(&mut args, "-R");
            push_text(&mut args, "valgrind");
            assert(views(args@) == launcher(platform, arch@, false).args);
            CommandLine { program: "setarch".to_owned(), args }
        },
        Platform::FreeBsd => {
            let mut args: Vec<String> = Vec::new();
            push_text(&mut args, "-m");
            push_text(&mut args, "aslr");
            push_text(&mut args, "-s");
            push_text(&mut args, "disable");
            assert(views(args@) == launcher(platform, arch@, false).args);
            CommandLine { program: "proccontrol".to_owned(), args }
        },
        Platform::Other => basic_valgrind(),
    }
}

/// How Valgrind is started.
pub fn valgrind(platform: Platform, arch: &str, allow_aslr: bool) -> (r: CommandLine)
    ensures
        r@ == launcher(platform, arch@, allow_aslr),
{
    if allow_aslr {
        basic_valgrind()
    } else {
        valgrind_without_aslr(platform, arch)
    }
}

/// Adds the options that both tools have in common.
fn add_options(command: &mut CommandLine, tool: Tool, output: &str)
    ensures
        final(command)@.program == old(command)@.program,
        final(command)@.args == old(command)@.args + options(tool, output@),
{
    push_joined(&mut command.args, "--tool=", tool.name());
    push_text(&mut command.args, "--cache-sim=yes");
    push_text(&mut command.args, "--I1=32768,8,64");
    push_text(&mut command.args, "--D1=32768,8,64");
    push_text(&mut command.args, "--LL=8388608,16,64");
    let mut option: String = "--".to_owned();
    option.append(tool.name());
    option.append("-out-file=");
    push_joined(&mut command.args, option.as_str(), output);
    assert(command@.args == old(command)@.args + options(tool, output@));
}

/// The command that runs one benchmark, or none, under Cachegrind.
pub fn cachegrind(launch: CommandLine, output: &str, executable: &str, run: CachegrindRun) -> (r:
    CommandLine)
    ensures
        r@ == cachegrind_command(launch@, output@, executable@, run),
{
    let mut command = launch;
    add_options(&mut command, Tool::Cachegrind, output);
    push_text(&mut command.args, executable);
    push_text(&mut command.args, "--iai-run");
    let mut index: String = String::new();
    match run {
        CachegrindRun::Calibration => {
            index.append("-1");
            proof {
                reveal_strlit("-1");
                reveal_strlit("-");
                assert(index@ == signed_decimal(-1));
            }
        },
        CachegrindRun::Benchmark(i) => {
            append_decimal(&mut index, i as u128);
        },
    }
    push_text(&mut command.args, index.as_str());
    assert(command@.args == cachegrind_command(launch@, output@, executable@, run).args);
    command
}

/// The command that runs all benchmarks under Callgrind.
pub fn callgrind(launch: CommandLine, output: &str, executable: &str, names: &[String]) -> (r:
    CommandLine)
    ensures
        r@ == callgrind_command(launch@, output@, executable@, views(names@)),
{
    let mut command = launch;
    add_options(&mut command, Tool::Callgrind, output);
    push_text(&mut command.args, "--compress-strings=no");
    push_text(&mut command.args, "--compress-pos=no");
    push_text(&mut command.args, "--collect-atstart=no");
    let ghost before = command@.args;
    let ghost all = views(names@);
    let mut i: usize = 0;
    while i < names.len()
        invariant
            i <= names@.len(),
            all == views(names@),
            command@.program == launch@.program,
            command@.args == before + all.take(i as int).map_values(
                |name: Seq<char>| "--toggle-collect=__iai_bench_"@ + name,
            ),
        decreases names@.len() - i,
    {
        push_joined(&mut command.args, "--toggle-collect=__iai_bench_", names[i].as_str());
        i = i + 1;
        assert(command@.args == before + all.take(i as int).map_values(
            |name: Seq<char>| "--toggle-collect=__iai_bench_"@ + name,
        ));
    }
    assert(all.take(i as int) == all);
    push_text(&mut command.args, executable);
    push_text(&mut command.args, "--iai-run");
    assert(command@.args == callgrind_command(launch@, output@, executable@, all).args);
    command
}

/// The files of a run whose output is `output` and whose earlier output has the name `old_name`.
fn output_files(output: String, old_name: &str) -> (r: Result<OutputFiles, RunnerError>)
    ensures
        match r {
            Ok(files) => files_of(output@, old_name@) == Ok::<OutputFilesView, RunnerErrorView>(
                files@,
            ),
            Err(error) => files_of(output@, old_name@) == Err::<OutputFilesView, RunnerErrorView>(
                error@,
            ),
        },
{
    match parent(output.as_str()) {
        Some(directory) => {
            let old_output = with_file_name(output.as_str(), old_name);
            Ok(OutputFiles { directory, output, old_output })
        },
        None => Err(RunnerError::InvalidOutputPath(output)),
    }
}

/// The files of a run of Cachegrind that is kept under `name`.
pub fn cachegrind_output_files(name: &str) -> (r: Result<OutputFiles, RunnerError>)
    ensures
        match r {
            Ok(files) => cachegrind_files(name@) == Ok::<OutputFilesView, RunnerErrorView>(files@),
            Err(error) => cachegrind_files(name@) == Err::<OutputFilesView, RunnerErrorView>(
                error@,
            ),
        },
{
    let mut output: String = "target/iai/cachegrind.out.".to_owned();
    output.append(name);
    let mut old_name: String = "cachegrind.out.".to_owned();
    old_name.append(name);
    old_name.append(".old");
    output_files(output, old_name.as_str())
}

/// The files of the run of Callgrind.
pub fn callgrind_output_files() -> (r: Result<OutputFiles, RunnerError>)
    ensures
        match r {
            Ok(files) => callgrind_files() == Ok::<OutputFilesView, RunnerErrorView>(files@),
            Err(error) => callgrind_files() == Err::<OutputFilesView, RunnerErrorView>(error@),
        },
{
    output_files("target/iai/callgrind.out".to_owned(), "callgrind.out.old")
}

/// Every benchmark has output files, whatever its name is.
pub proof fn law_there_are_output_files(name: Seq<char>)
    ensures
        cachegrind_files(name) is Ok,
        callgrind_files() is Ok,
{
    reveal_strlit("target/iai/cachegrind.out.");
    reveal_strlit("target/iai/callgrind.out");
    lemma_trimmed_keeps_start("target/iai/cachegrind.out."@ + name);
    lemma_trimmed_keeps_start("target/iai/callgrind.out"@);
}

/// The output files lie in the directory `target/iai`: one for each benchmark under Cachegrind, and
/// one for all of them under Callgrind. The output of the run before is kept beside them.
pub proof fn law_output_files_lie_in_target(name: Seq<char>)
    requires
        !name.contains('/'),
    ensures
        cachegrind_files(name) == Ok::<OutputFilesView, RunnerErrorView>(
            OutputFilesView {
                directory: "target/iai"@,
                output: "target/iai/cachegrind.out."@ + name,
                old_output: "target/iai/cachegrind.out."@ + name + ".old"@,
            },
        ),
        callgrind_files() == Ok::<OutputFilesView, RunnerErrorView>(
            OutputFilesView {
                directory: "target/iai"@,
                output: "target/iai/callgrind.out"@,
                old_output: "target/iai/callgrind.out.old"@,
            },
        ),
{
    let directory = "target/iai"@;
    reveal_strlit("target/iai");
    reveal_strlit("target/iai/cachegrind.out.");
    reveal_strlit("target/iai/callgrind.out");
    reveal_strlit("target/iai/callgrind.out.old");
    reveal_strlit("cachegrind.out.");
    reveal_strlit("callgrind.out");
    reveal_strlit("callgrind.out.old");
    reveal_strlit(".old");
    reveal_strlit("/");
    reveal_strlit(".");
    reveal_strlit("..");
    law_there_are_output_files(name);

    let own = "cachegrind.out."@ + name;
    let own_old = own + ".old"@;
    assert(!own.contains('/')) by {
        assert forall|i: int| 0 <= i < own.len() implies own[i] != '/' by {
            if i >= 15 {
                assert(name.contains(name[i - 15]));
            }
        }
    }
    assert(!own_old.contains('/')) by {
        assert forall|i: int| 0 <= i < own_old.len() implies own_old[i] != '/' by {
            if i < own.len() {
                assert(own.contains(own[i]));
            }
        }
    }
    law_file_lies_in_its_directory(directory, own, own_old);
    assert(directory + "/"@ + own == "target/iai/cachegrind.out."@ + name);
    assert(directory + "/"@ + own_old == "target/iai/cachegrind.out."@ + name + ".old"@);

    law_file_lies_in_its_directory(directory, "callgrind.out"@, "callgrind.out.old"@);
    assert(directory + "/"@ + "callgrind.out"@ == "target/iai/callgrind.out"@);
    assert(directory + "/"@ + "callgrind.out.old"@ == "target/iai/callgrind.out.old"@);
}

/// Benchmarks with different names have different output files.
pub proof fn law_output_files_are_distinct(first: Seq<char>, second: Seq<char>)
    requires
        first != second,
    ensures
        cachegrind_files(first)->Ok_0.output != cachegrind_files(second)->Ok_0.output,
{
    law_there_are_output_files(first);
    law_there_are_output_files(second);
    let prefix = "target/iai/cachegrind.out."@;
    if prefix + first == prefix + second {
        assert(first == (prefix + first).skip(prefix.len() as int));
        assert(second == (prefix + second).skip(prefix.len() as int));
    }
}

/// The output of the run before is kept in another file than the output itself, whatever the name
/// of the benchmark is.
pub proof fn law_earlier_output_is_another_file(name: Seq<char>)
    ensures
        cachegrind_files(name)->Ok_0.output != cachegrind_files(name)->Ok_0.old_output,
        callgrind_files()->Ok_0.output != callgrind_files()->Ok_0.old_output,
{
    law_there_are_output_files(name);
    law_output_files_lie_in_target(Seq::empty());
    reveal_strlit("target/iai/callgrind.out");
    reveal_strlit("target/iai/callgrind.out.old");
    reveal_strlit("target/iai");
    reveal_strlit("target/iai/cachegrind.out.");
    reveal_strlit("cachegrind.out.");
    reveal_strlit(".old");
    let prefix = "target/iai/cachegrind.out."@;
    let output = prefix + name;
    let old_name = "cachegrind.out."@ + name + ".old"@;
    let whole = trimmed(output);
    lemma_trimmed_keeps_prefix(prefix, name);
    assert(whole[10] == prefix[10]);
    lemma_base_is_behind_separators(whole, 10);
    let above = whole.take(base_start(whole) as int);
    let directory = "target/iai"@;
    assert(above == directory + above.skip(10)) by {
        assert forall|i: int| 0 <= i < 10 implies above[i] == directory[i] by {
            assert(whole[i] == prefix[i]);
        }
    }
    lemma_trimmed_keeps_prefix(directory, above.skip(10));
    assert(renamed(output, old_name).len() >= 10 + old_name.len());
}

/// Valgrind is asked for its version, with the tool that is to be used.
pub proof fn law_tools_are_asked_for_their_version()
    ensures
        probe(Tool::Cachegrind) == (CommandView {
            program: "valgrind"@,
            args: seq!["--tool=cachegrind"@, "--version"@],
        }),
        probe(Tool::Callgrind) == (CommandView {
            program: "valgrind"@,
            args: seq!["--tool=callgrind"@, "--version"@],
        }),
{
    lemma_option_texts();
    assert(probe(Tool::Cachegrind).args == seq!["--tool=cachegrind"@, "--version"@]);
    assert(probe(Tool::Callgrind).args == seq!["--tool=callgrind"@, "--version"@]);
}

/// The options of a tool hold its name.
proof fn lemma_option_texts()
    ensures
        "--tool="@ + "cachegrind"@ == "--tool=cachegrind"@,
        "--tool="@ + "callgrind"@ == "--tool=callgrind"@,
        "--"@ + "cachegrind"@ + "-out-file="@ == "--cachegrind-out-file="@,
        "--"@ + "callgrind"@ + "-out-file="@ == "--callgrind-out-file="@,
{
    reveal_strlit("--");
    reveal_strlit("--tool=");
    reveal_strlit("cachegrind");
    reveal_strlit("callgrind");
    reveal_strlit("--tool=cachegrind");
    reveal_strlit("--tool=callgrind");
    reveal_strlit("-out-file=");
    reveal_strlit("--cachegrind-out-file=");
    reveal_strlit("--callgrind-out-file=");
    assert("--tool="@ + "cachegrind"@ == "--tool=cachegrind"@);
    assert("--tool="@ + "callgrind"@ == "--tool=callgrind"@);
    assert("--"@ + "cachegrind"@ + "-out-file="@ == "--cachegrind-out-file="@);
    assert("--"@ + "callgrind"@ + "-out-file="@ == "--callgrind-out-file="@);
}

/// Where addresses may be randomised, or the platform cannot switch that off, Valgrind is started as
/// it is, whatever the processor is; else it is started by the program that switches it off.
pub proof fn law_randomisation_is_switched_off_unless_allowed(platform: Platform, arch: Seq<char>)
    ensures
        launcher(platform, arch, true) == (CommandView {
            program: "valgrind"@,
            args: Seq::empty(),
        }),
        launcher(Platform::Other, arch, false) == launcher(platform, arch, true),
        launcher(Platform::Linux, arch, false) == (CommandView {
            program: "setarch"@,
            args: seq![arch, "-R"@, "valgrind"@],
        }),
        launcher(Platform::FreeBsd, arch, false) == (CommandView {
            program: "proccontrol"@,
            args: seq!["-m"@, "aslr"@, "-s"@, "disable"@],
        }),
{
}

/// How Cachegrind is run: with the caches simulated at fixed sizes, with its output file, and with
/// the binary and the index of the benchmark, which is -1 for the calibration.
pub proof fn law_cachegrind_is_told_what_to_run(
    launch: CommandView,
    output: Seq<char>,
    executable: Seq<char>,
    index: usize,
)
    ensures
        ({
            let options = seq![
                "--tool=cachegrind"@,
                "--cache-sim=yes"@,
                "--I1=32768,8,64"@,
                "--D1=32768,8,64"@,
                "--LL=8388608,16,64"@,
                "--cachegrind-out-file="@ + output,
            ];
            let calibration = cachegrind_command(
                launch,
                output,
                executable,
                CachegrindRun::Calibration,
            );
            let benchmark = cachegrind_command(
                launch,
                output,
                executable,
                CachegrindRun::Benchmark(index),
            );
            &&& calibration.program == launch.program
            &&& benchmark.program == launch.program
            &&& calibration.args == launch.args + options + seq![executable, "--iai-run"@, "-1"@]
            &&& benchmark.args == launch.args + options + seq![
                executable,
                "--iai-run"@,
                decimal(index as nat),
            ]
        }),
{
    lemma_option_texts();
    let options = seq![
        "--tool=cachegrind"@,
        "--cache-sim=yes"@,
        "--I1=32768,8,64"@,
        "--D1=32768,8,64"@,
        "--LL=8388608,16,64"@,
        "--cachegrind-out-file="@ + output,
    ];
    reveal_strlit("-1");
    law_only_negative_numbers_have_a_sign(1);
    law_only_negative_numbers_have_a_sign(index as nat);
    assert(decimal(1) =~= seq!['1']);
    assert("-1"@ =~= seq!['-'] + seq!['1']);
    assert(crate::command::options(Tool::Cachegrind, output) =~= options);
}

/// How Callgrind is run: with the caches simulated at the same sizes, with its output file, with full
/// names, with the counting switched on within each of the benchmarks alone, and with the binary.
pub proof fn law_callgrind_is_told_what_to_run(
    launch: CommandView,
    output: Seq<char>,
    executable: Seq<char>,
    names: Seq<Seq<char>>,
)
    ensures
        ({
            let command = callgrind_command(launch, output, executable, names);
            let options = seq![
                "--tool=callgrind"@,
                "--cache-sim=yes"@,
                "--I1=32768,8,64"@,
                "--D1=32768,8,64"@,
                "--LL=8388608,16,64"@,
                "--callgrind-out-file="@ + output,
                "--compress-strings=no"@,
                "--compress-pos=no"@,
                "--collect-atstart=no"@,
            ];
            let toggles = Seq::new(
                names.len(),
                |i: int| "--toggle-collect=__iai_bench_"@ + names[i],
            );
            &&& command.program == launch.program
            &&& command.args == launch.args + options + toggles + seq![executable, "--iai-run"@]
        }),
{
    lemma_option_texts();
    let command = callgrind_command(launch, output, executable, names);
    let options = seq![
        "--tool=callgrind"@,
        "--cache-sim=yes"@,
        "--I1=32768,8,64"@,
        "--D1=32768,8,64"@,
        "--LL=8388608,16,64"@,
        "--callgrind-out-file="@ + output,
        "--compress-strings=no"@,
        "--compress-pos=no"@,
        "--collect-atstart=no"@,
    ];
    let toggles = Seq::new(names.len(), |i: int| "--toggle-collect=__iai_bench_"@ + names[i]);
    assert(crate::command::options(Tool::Callgrind, output)[5] == "--callgrind-out-file="@
        + output);
    assert(command.args =~= launch.args + options + toggles + seq![executable, "--iai-run"@]);
}

/// The output of a benchmark has its name behind `target/iai/cachegrind.out.`, whatever the name is;
/// its directory is that of the path, and the output of the run before is renamed within it.
pub proof fn law_output_files_are_named_after_the_benchmark(name: Seq<char>)
    ensures
        ({
            let output = "target/iai/cachegrind.out."@ + name;
            let files = cachegrind_files(name)->Ok_0;
            &&& cachegrind_files(name) is Ok
            &&& files.output == output
            &&& parent_of(output) == Some(files.directory)
            &&& files.old_output == renamed(output, "cachegrind.out."@ + name + ".old"@)
        }),
{
    law_there_are_output_files(name);
}

/// A run of a benchmark is named after the benchmark at its index, and the calibration is not named
/// after any.
pub proof fn law_runs_are_named_after_their_benchmarks(names: Seq<Seq<char>>, index: usize)
    requires
        index < names.len(),
    ensures
        CachegrindRun::Benchmark(index).name(names) == names[index as int],
        CachegrindRun::Calibration.name(names) == "iai_calibration"@,
{
}

/// Commands and files are modelled as they are.
pub proof fn law_commands_are_modelled_as_they_are(command: CommandLine, files: OutputFiles)
    ensures
        command@.program == command.program@,
        command@.args == views(command.args@),
        files@.directory == files.directory@,
        files@.output == files.output@,
        files@.old_output == files.old_output@,
{
}

} // verus!
