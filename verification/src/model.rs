//! The result model shared by the check runner, the parsers and storage.
use vstd::prelude::*;

verus! {

/// Technical state of one check execution.
#[derive(Debug, Clone, Copy, PartialEq, Eq, Structural)]
pub enum Execution {
    Completed,
    TimedOut,
    SpawnFailed,
    InvalidOutput,
}

/// A named string fact, such as the installed macOS version.
#[derive(Debug, Clone, PartialEq, Eq)]
pub struct Fact {
    pub name: String,
    pub value: String,
}

impl View for Fact {
    type V = (Seq<char>, Seq<char>);

    open spec fn view(&self) -> (Seq<char>, Seq<char>) {
        (self.name@, self.value@)
    }
}

} // verus!
