//! Progress of long-running jobs, as the log pane shows it.

use vstd::prelude::*;

use crate::error::AppError;

verus! {

#[derive(Debug, Clone, Copy, PartialEq, Eq, Structural)]
pub enum LogStream {
    Stdout,
    Stderr,
}

/// One event of a job.
#[derive(Debug)]
pub enum JobEvent {
    /// A headline, such as "cloning nl-frontend".
    Status { message: String, repo: Option<String> },
    /// A line of output from a child process.
    Log { stream: LogStream, line: String, repo: Option<String> },
    /// The job is done.
    Success,
    /// The job is over, and why.
    Failed { error: String },
}

/// Whether this is the last event of a job that came out this way: that it is done, or
/// that it failed, in the words of its error.
pub open spec fn ends_with(outcome: Result<(), AppError>, event: JobEvent) -> bool {
    match outcome {
        Ok(_) => event is Success,
        Err(e) => event matches JobEvent::Failed { error } && error@ == e.text(),
    }
}

/// The last event of a job, whether it made a workspace or added a repo to one.
pub fn last_event(outcome: &Result<(), AppError>) -> (r: JobEvent)
    ensures
        ends_with(*outcome, r),
{
    match outcome {
        Ok(_) => JobEvent::Success,
        Err(e) => JobEvent::Failed { error: e.message() },
    }
}

} // verus!
