//! The profilers.

use vstd::prelude::*;

verus! {

/// A Valgrind tool that simulates the caches.
#[derive(Clone, Copy, Debug, PartialEq, Eq, Structural)]
pub enum Tool {
    /// Each benchmark is run in a process of its own, and a calibration run is subtracted.
    Cachegrind,
    /// All benchmarks are run in one process, and only their functions are measured.
    Callgrind,
}

impl Tool {
    /// The name by which Valgrind knows the tool.
    pub open spec fn text(self) -> Seq<char> {
        match self {
            Tool::Cachegrind => "cachegrind"@,
            Tool::Callgrind => "callgrind"@,
        }
    }

    /// The name of the tool at the beginning of a sentence.
    pub open spec fn title_text(self) -> Seq<char> {
        match self {
            Tool::Cachegrind => "Cachegrind"@,
            Tool::Callgrind => "Callgrind"@,
        }
    }

    /// The name by which Valgrind knows the tool.
    pub fn name(&self) -> (r: &'static str)
        ensures
            r@ == self.text(),
    {
        match self {
            Tool::Cachegrind => "cachegrind",
            Tool::Callgrind => "callgrind",
        }
    }

    /// The name of the tool at the beginning of a sentence.
    pub fn title(&self) -> (r: &'static str)
        ensures
            r@ == self.title_text(),
    {
        match self {
            Tool::Cachegrind => "Cachegrind",
            Tool::Callgrind => "Callgrind",
        }
    }
}

/// What the tools are called.
pub proof fn law_tools_have_their_names()
    ensures
        Tool::Cachegrind.text() == "cachegrind"@,
        Tool::Callgrind.text() == "callgrind"@,
        Tool::Cachegrind.title_text() == "Cachegrind"@,
        Tool::Callgrind.title_text() == "Callgrind"@,
{
}

} // verus!
