//! One-shot benchmarking on top of the cache simulation of Valgrind.
//!
//! A benchmark is run once under Cachegrind, under Callgrind, or under both, and the counters of
//! the simulated caches are reported, together with how they changed since the run before.
//!
//! The library decides and computes; it touches neither files nor processes. [`runner`] begins a
//! session, which tells what is to be done next and takes what came of it:
//!
//! - `invocation`: how a process was started, as the harness or as one of its children
//! - `session`, `protocol`: the course of a run, and what is asked of the world outside
//! - `command`, `paths`: the commands that are run, and the files that they write
//! - `parse`, `stats`: the output files of the profilers, and the counters that they hold
//! - `report`, `percent`: what is shown of the counters
//! - `registration`: the names under which a function becomes a benchmark
//! - `course`, `outcome`, `baseline`: what holds of every run, what a run without failures comes
//!   to, and what it is compared with
//! - `text`, `number`, `tool`, `error`, `black_box`: what the others are made of

pub mod baseline;
pub mod black_box;
pub mod command;
pub mod course;
pub mod error;
pub mod invocation;
pub mod number;
pub mod outcome;
pub mod parse;
pub mod paths;
pub mod percent;
pub mod protocol;
pub mod registration;
pub mod report;
pub mod session;
pub mod stats;
pub mod text;
pub mod tool;

pub use black_box::black_box;
pub use registration::iai;
pub use session::runner;
