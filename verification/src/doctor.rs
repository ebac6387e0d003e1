//! The outcome of the project's self-diagnosis: everything is looked at, and
//! the diagnosis passes where each part of it passed.

use vstd::prelude::*;

verus! {

/// How a check that passed ended.
#[derive(Clone, Copy, Debug, PartialEq, Eq, Structural)]
pub enum Status {
    Passed,
}

/// What the diagnosis is run on.
#[derive(Debug)]
pub struct DoctorOptions {
    pub project_root: String,
}

/// What the checks run so far have shown.
#[derive(Clone, Copy, Debug, PartialEq, Eq, Structural)]
pub struct Report {
    pub passed: bool,
}

/// The diagnosis found something that is not set up as it must be.
#[derive(Clone, Copy, Debug, PartialEq, Eq, Structural)]
pub struct NotConfigured;

impl Report {
    /// The report before any check has run.
    pub fn new() -> (r: Report)
        ensures
            r.passed,
    {
        Report { passed: true }
    }

    /// The report after one more check: it still passes where it passed
    /// before and the check passed.
    pub fn record(self, outcome: Option<Status>) -> (r: Report)
        ensures
            r.passed == (self.passed && outcome is Some),
    {
        match outcome {
            Some(Status::Passed) => self,
            None => Report { passed: false },
        }
    }

    /// How the diagnosis ends: with an error unless everything passed.
    pub fn conclude(self) -> (res: Result<(), NotConfigured>)
        ensures
            res is Ok <==> self.passed,
    {
        if self.passed {
            Ok(())
        } else {
            Err(NotConfigured)
        }
    }
}

} // verus!
