# iai

A harness for one-shot benchmarks. Each benchmark is run once under Valgrind, and what is reported
are the counters of the simulated caches instead of wall-clock time, together with how they changed
since the run before.

- **Cachegrind** runs each benchmark in a process of its own, and once more none at all; what that
  calibration counts is subtracted. Its output goes to `target/iai/cachegrind.out.<name>`.
- **Callgrind** runs all benchmarks in one process and counts within the benchmark functions alone.
  Its output goes to `target/iai/callgrind.out`.

Where both tools are in use, the reports are grouped by tool, or by benchmark where the variable
`IAI_GROUP_BY_BENCHMARK` is set. The randomisation of addresses is switched off unless
`IAI_ALLOW_ASLR` is set.

## Layout

`src/` is the library. It is written in Verus, and every function in it is proved to do what its
contract says. It decides and computes, but it touches neither files nor processes: a `Session`
tells which action comes next and takes the reply. `course`, `outcome` and `baseline` hold what is
proved of whole runs: that a run always ends, how often the profilers are started, that no earlier
output is lost, that a run without failures shows exactly what the profilers counted, and that it is
compared with the run immediately before it.

Two outside functions are called: `std::hint::black_box`, which is trusted to hand back its argument,
and `syn::parse_str`, which finds the name of a function in its source text and of whose answer
nothing is assumed.

`app/` performs the actions on a real system, and holds the expansion of the `#[iai]` attribute.
`tests/` runs the library on concrete values.
