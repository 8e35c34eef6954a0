//! Why a request could not be carried out.

use vstd::prelude::*;

use crate::text;

verus! {

/// A refusal or a failure, as the user gets to read it.
#[derive(Debug)]
pub enum AppError {
    WorkspaceNotFound(String),
    BlockerWouldCycle,
    BlockerInAnotherFolder,
    FolderNotFound(String),
    /// A failure reported by the operating system, in its own words.
    Io(String),
    /// A failure to read or write JSON, in the parser's own words.
    Json(String),
    Other(String),
}

pub type AppResult<T> = Result<T, AppError>;

impl AppError {
    /// The words that tell the user what went wrong.
    pub open spec fn text(self) -> Seq<char> {
        match self {
            AppError::WorkspaceNotFound(id) => "workspace not found: "@ + id@,
            AppError::BlockerWouldCycle =>
                "that would make the two workspaces wait on each other"@,
            AppError::BlockerInAnotherFolder =>
                "a workspace can only wait on one in the same folder"@,
            AppError::FolderNotFound(id) => "folder not found: "@ + id@,
            AppError::Io(e) => "io error: "@ + e@,
            AppError::Json(e) => "json error: "@ + e@,
            AppError::Other(m) => m@,
        }
    }

    /// Whether this is a failure that is nothing but these words.
    pub open spec fn says(self, words: Seq<char>) -> bool {
        self is Other && self.text() == words
    }

    /// Whether this says that the workspace is not there.
    pub open spec fn lacks_workspace(self, id: Seq<char>) -> bool {
        self matches AppError::WorkspaceNotFound(w) && w@ == id
    }

    /// The words that tell the user what went wrong.
    pub fn message(&self) -> (r: String)
        ensures
            r@ == self.text(),
    {
        match self {
            AppError::WorkspaceNotFound(id) => text::cat("workspace not found: ", id),
            AppError::BlockerWouldCycle =>
                "that would make the two workspaces wait on each other".to_owned(),
            AppError::BlockerInAnotherFolder =>
                "a workspace can only wait on one in the same folder".to_owned(),
            AppError::FolderNotFound(id) => text::cat("folder not found: ", id),
            AppError::Io(e) => text::cat("io error: ", e),
            AppError::Json(e) => text::cat("json error: ", e),
            AppError::Other(m) => m.clone(),
        }
    }
}

} // verus!
