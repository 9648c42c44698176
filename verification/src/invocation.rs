//! The command line of the benchmark process.

use crate::number::{append_signed_decimal, parse_isize, NumberError};
#[allow(unused_imports)]
use crate::number::{
    all_digits, law_other_texts_are_no_signed_numbers, law_signed_numbers_are_digits,
    law_signed_round_trip, signed_decimal, signed_value,
};
use crate::text::same;
#[allow(unused_imports)]
use crate::text::views;
use vstd::prelude::*;

verus! {

/// How the process was started.
#[derive(Clone, Debug)]
pub struct Invocation {
    /// The path of the binary, with which child processes are started.
    pub executable: String,
    /// What the process is to do.
    pub mode: InvocationMode,
}

/// What a process is to do.
#[derive(Clone, Copy, Debug, PartialEq, Eq, Structural)]
pub enum InvocationMode {
    /// It was started by the harness, with `--iai-run`, for one benchmark.
    Child { benchmark_index: isize },
    /// It is the harness: it drives the calibration and all benchmarks.
    Parent,
}

/// Why a command line with `--iai-run` selects no benchmark.
#[derive(Clone, Copy, Debug, PartialEq, Eq, Structural)]
pub enum InvocationParseError {
    /// Nothing follows `--iai-run`.
    MissingBenchmarkIndex,
    /// What follows `--iai-run` is no integer.
    InvalidBenchmarkIndex(NumberError),
}

/// The binary that a command line names.
pub open spec fn executable_of(args: Seq<Seq<char>>) -> Seq<char> {
    if args.len() > 0 {
        args[0]
    } else {
        Seq::empty()
    }
}

/// What a command line asks for. Anything after the index is ignored.
pub open spec fn mode_of(args: Seq<Seq<char>>) -> Result<InvocationMode, InvocationParseError> {
    if args.len() < 2 || args[1] != "--iai-run"@ {
        Ok(InvocationMode::Parent)
    } else if args.len() == 2 {
        Err(InvocationParseError::MissingBenchmarkIndex)
    } else {
        match signed_value(args[2]) {
            Ok(index) => Ok(InvocationMode::Child { benchmark_index: index as isize }),
            Err(e) => Err(InvocationParseError::InvalidBenchmarkIndex(e)),
        }
    }
}

/// Reads a command line:
/// - `<executable> --iai-run <index>` starts a child for one benchmark; what follows the index is
///   ignored;
/// - any command line whose second argument is not `--iai-run` starts the harness.
pub fn parse_invocation(args: &[String]) -> (r: Result<Invocation, InvocationParseError>)
    ensures
        match r {
            Ok(invocation) => {
                &&& mode_of(views(args@)) == Ok::<InvocationMode, InvocationParseError>(
                    invocation.mode,
                )
                &&& invocation.executable@ == executable_of(views(args@))
            },
            Err(e) => mode_of(views(args@)) == Err::<InvocationMode, InvocationParseError>(e),
        },
{
    let executable: String = if args.len() > 0 {
        args[0].clone()
    } else {
        String::new()
    };
    if args.len() < 2 || !same(args[1].as_str(), "--iai-run") {
        return Ok(Invocation { executable, mode: InvocationMode::Parent });
    }
    if args.len() == 2 {
        return Err(InvocationParseError::MissingBenchmarkIndex);
    }
    match parse_isize(args[2].as_str()) {
        Ok(benchmark_index) => Ok(
            Invocation { executable, mode: InvocationMode::Child { benchmark_index } },
        ),
        Err(e) => Err(InvocationParseError::InvalidBenchmarkIndex(e)),
    }
}

impl InvocationParseError {
    /// The diagnostic text of the error.
    pub open spec fn text(self) -> Seq<char> {
        match self {
            InvocationParseError::MissingBenchmarkIndex => {
                "Invalid --iai-run invocation: benchmark index is missing"@
            },
            InvocationParseError::InvalidBenchmarkIndex(e) => {
                "Invalid --iai-run invocation: benchmark index is invalid ("@ + e.text() + ")"@
            },
        }
    }

    /// The diagnostic text of the error.
    pub fn message(&self) -> (r: String)
        ensures
            r@ == self.text(),
    {
        match self {
            InvocationParseError::MissingBenchmarkIndex => {
                "Invalid --iai-run invocation: benchmark index is missing".to_owned()
            },
            InvocationParseError::InvalidBenchmarkIndex(e) => {
                let mut r: String =
                    "Invalid --iai-run invocation: benchmark index is invalid (".to_owned();
                r.append(e.message());
                r.append(")");
                r
            },
        }
    }
}

impl Invocation {
    /// The command line that starts such an invocation.
    pub open spec fn text(self) -> Seq<char> {
        match self.mode {
            InvocationMode::Parent => self.executable@,
            InvocationMode::Child { benchmark_index } => {
                self.executable@ + " --iai-run "@ + signed_decimal(benchmark_index as int)
            },
        }
    }

    /// The command line that starts such an invocation: `<executable>` or
    /// `<executable> --iai-run <index>`.
    pub fn describe(&self) -> (r: String)
        ensures
            r@ == self.text(),
    {
        let mut r: String = self.executable.clone();
        match self.mode {
            InvocationMode::Parent => {},
            InvocationMode::Child { benchmark_index } => {
                r.append(" --iai-run ");
                append_signed_decimal(&mut r, benchmark_index);
            },
        }
        r
    }
}

/// A child that is started for the index `n` reads the index `n`, whatever else follows.
pub proof fn law_child_reads_its_index(executable: Seq<char>, n: isize, rest: Seq<Seq<char>>)
    ensures
        ({
            let args = seq![executable, "--iai-run"@, signed_decimal(n as int)] + rest;
            &&& mode_of(args) == Ok::<InvocationMode, InvocationParseError>(
                InvocationMode::Child { benchmark_index: n },
            )
            &&& executable_of(args) == executable
        }),
{
    law_signed_round_trip(n);
}

/// The second argument decides what a process is to do, and the third one which benchmark it runs.
pub proof fn law_arguments_choose_the_mode(args: Seq<Seq<char>>)
    ensures
        args.len() < 2 || args[1] != "--iai-run"@ ==> mode_of(args) == Ok::<
            InvocationMode,
            InvocationParseError,
        >(InvocationMode::Parent),
        args.len() == 2 && args[1] == "--iai-run"@ ==> mode_of(args) == Err::<
            InvocationMode,
            InvocationParseError,
        >(InvocationParseError::MissingBenchmarkIndex),
        args.len() > 2 && args[1] == "--iai-run"@ ==> (match signed_value(args[2]) {
            Ok(n) => mode_of(args) == Ok::<InvocationMode, InvocationParseError>(
                InvocationMode::Child { benchmark_index: n as isize },
            ) && n as isize == n,
            Err(e) => mode_of(args) == Err::<InvocationMode, InvocationParseError>(
                InvocationParseError::InvalidBenchmarkIndex(e),
            ),
        }),
{
    if args.len() > 2 {
        let s = args[2];
        law_other_texts_are_no_signed_numbers(s);
        if signed_value(s) is Ok {
            if s.len() > 0 && all_digits(s) {
                law_signed_numbers_are_digits(s);
            } else {
                law_signed_numbers_are_digits(s.skip(1));
                assert(seq!['+'] + s.skip(1) == s || seq!['-'] + s.skip(1) == s);
            }
        }
    }
}

/// What follows the index has no say, and neither has the path of the binary, which is the first
/// argument.
pub proof fn law_other_arguments_have_no_say(args: Seq<Seq<char>>, executable: Seq<char>)
    ensures
        args.len() > 3 ==> mode_of(args.take(3)) == mode_of(args),
        args.len() > 0 ==> executable_of(args) == args[0] && mode_of(args.update(0, executable))
            == mode_of(args),
        args.len() == 0 ==> executable_of(args) == Seq::<char>::empty(),
{
}

/// How an invocation and an invalid one are written.
pub proof fn law_invocations_are_written(
    executable: Seq<char>,
    invocation: Invocation,
    n: isize,
    e: NumberError,
)
    requires
        invocation.executable@ == executable,
    ensures
        invocation.mode == InvocationMode::Parent ==> invocation.text() == executable,
        invocation.mode == (InvocationMode::Child { benchmark_index: n }) ==> invocation.text()
            == executable + " --iai-run "@ + signed_decimal(n as int),
        InvocationParseError::MissingBenchmarkIndex.text()
            == "Invalid --iai-run invocation: benchmark index is missing"@,
        InvocationParseError::InvalidBenchmarkIndex(e).text()
            == "Invalid --iai-run invocation: benchmark index is invalid ("@ + e.text() + ")"@,
{
}

} // verus!
