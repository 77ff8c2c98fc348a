//! Process-level errors versus domain refusals: argument failures exit
//! like refusals but carry only a message, while domain refusals carry a
//! taxonomy code.

use vstd::prelude::*;

use crate::codes::RefusalCode;

verus! {

/// A domain refusal outcome, distinct from process-level failures.
#[derive(Debug, Clone)]
pub struct DomainRefusal {
    pub code: RefusalCode,
    pub message: Vec<u8>,
}

impl DomainRefusal {
    /// Pair a code with its message text.
    pub fn new(code: RefusalCode, message: Vec<u8>) -> (r: DomainRefusal)
        ensures
            r.code == code && r.message@ == message@,
    {
        DomainRefusal { code, message }
    }

    /// The message text.
    pub fn message(&self) -> (r: &Vec<u8>)
        ensures
            r@ == self.message@,
    {
        &self.message
    }
}

/// A process-level error (argument parsing, input/output setup).
#[derive(Debug, Clone)]
pub struct ProcessError {
    message: Vec<u8>,
}

impl ProcessError {
    /// The stored message.
    pub closed spec fn spec_message(&self) -> Seq<u8> {
        self.message@
    }

    /// Wrap a message text.
    pub fn new(message: Vec<u8>) -> (r: ProcessError)
        ensures
            r.spec_message() == message@,
    {
        ProcessError { message }
    }

    /// The message text.
    pub fn message(&self) -> (r: &Vec<u8>)
        ensures
            r@ == self.spec_message(),
    {
        &self.message
    }
}

/// Either kind of failure, kept apart so JSON mode can still answer.
#[derive(Debug, Clone)]
pub enum PipelineError {
    Refusal(DomainRefusal),
    Process(ProcessError),
}

impl PipelineError {
    /// Whether this is a domain refusal.
    pub fn is_refusal(&self) -> (r: bool)
        ensures
            r == (self matches PipelineError::Refusal(_)),
    {
        match self {
            PipelineError::Refusal(_) => true,
            PipelineError::Process(_) => false,
        }
    }

    /// Whether this is a process-level failure.
    pub fn is_process(&self) -> (r: bool)
        ensures
            r == (self matches PipelineError::Process(_)),
    {
        match self {
            PipelineError::Refusal(_) => false,
            PipelineError::Process(_) => true,
        }
    }

    /// The domain refusal, if that is what this is.
    pub fn as_refusal(&self) -> (r: Option<&DomainRefusal>)
        ensures
            (self matches PipelineError::Refusal(e) ==> r matches Some(e2) && e2 == e),
            (self matches PipelineError::Process(_) ==> r is None),
    {
        match self {
            PipelineError::Refusal(e) => Some(e),
            PipelineError::Process(_) => None,
        }
    }

    /// The process error, if that is what this is.
    pub fn as_process(&self) -> (r: Option<&ProcessError>)
        ensures
            (self matches PipelineError::Process(e) ==> r matches Some(e2) && e2 == e),
            (self matches PipelineError::Refusal(_) ==> r is None),
    {
        match self {
            PipelineError::Refusal(_) => None,
            PipelineError::Process(e) => Some(e),
        }
    }
}

} // verus!
