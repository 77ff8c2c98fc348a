//! Exit codes and stdout/stderr routing.

use vstd::prelude::*;

verus! {

/// Domain outcome produced by the pipeline.
#[derive(Debug, Clone, Copy, PartialEq, Eq, Structural)]
pub enum Outcome {
    NoRealChange,
    RealChange,
    Refusal,
}

/// Output mode chosen on the command line.
#[derive(Debug, Clone, Copy, PartialEq, Eq, Structural)]
pub enum OutputMode {
    Human,
    Json,
}

/// Target stream for output emission.
#[derive(Debug, Clone, Copy, PartialEq, Eq, Structural)]
pub enum OutputStream {
    Stdout,
    Stderr,
}

/// Exit code for a given outcome (domain-level only).
///
/// Every run of the pipeline ends in one of these three outcomes, so the
/// process exit code is always 0, 1 or 2.
pub fn exit_code(outcome: Outcome) -> (r: u8)
    ensures
        outcome == Outcome::NoRealChange ==> r == 0,
        outcome == Outcome::RealChange ==> r == 1,
        outcome == Outcome::Refusal ==> r == 2,
        r == 0 || r == 1 || r == 2,
{
    match outcome {
        Outcome::NoRealChange => 0,
        Outcome::RealChange => 1,
        Outcome::Refusal => 2,
    }
}

/// Output stream for a given outcome and output mode: JSON always goes to
/// stdout; human refusals go to stderr, other human output to stdout.
pub fn output_stream(outcome: Outcome, mode: OutputMode) -> (r: OutputStream)
    ensures
        mode == OutputMode::Json ==> r == OutputStream::Stdout,
        mode == OutputMode::Human && outcome == Outcome::Refusal ==> r == OutputStream::Stderr,
        mode == OutputMode::Human && outcome != Outcome::Refusal ==> r == OutputStream::Stdout,
{
    match (mode, outcome) {
        (OutputMode::Json, _) => OutputStream::Stdout,
        (OutputMode::Human, Outcome::Refusal) => OutputStream::Stderr,
        (OutputMode::Human, _) => OutputStream::Stdout,
    }
}

} // verus!
