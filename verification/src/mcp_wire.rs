//! What the tool server and the application say to each other.
//!
//! Here every failure surfaces: an agent that believes it handed work over when
//! it did not goes on as though the work were covered.

use vstd::prelude::*;

verus! {

/// The name that the server registers under.
pub const SERVER_NAME: &'static str = "tethys";

/// The tool that hands work over.
pub const TOOL_CREATE_WORKSPACE: &'static str = "create_workspace";

/// The tool that links a pull request.
pub const TOOL_LINK_PR: &'static str = "link_pr";

/// The tools by the names that a session's permissions use.
pub const ALLOWED_TOOLS: [&'static str; 2] = [
    "mcp__tethys__create_workspace",
    "mcp__tethys__link_pr",
];

/// The socket that the application answers on.
pub const ENV_SOCKET: &'static str = "TETHYS_MCP_SOCKET";

/// Who is calling. This is set when the session is spawned, so that an agent
/// cannot claim to be another.
pub const ENV_WORKSPACE_ID: &'static str = "TETHYS_MCP_WORKSPACE_ID";

pub const ENV_SESSION_ID: &'static str = "TETHYS_MCP_SESSION_ID";

/// The keys of the repos that can be named, with commas between them.
pub const ENV_REPO_KEYS: &'static str = "TETHYS_MCP_REPO_KEYS";

/// What the server asks of the application.
#[derive(Debug)]
pub enum Request {
    CreateWorkspace(CreateWorkspace),
    LinkPr(LinkPr),
}

/// Work that is handed over.
#[derive(Debug)]
pub struct CreateWorkspace {
    /// The workspace of the calling session.
    pub from_workspace: String,
    pub from_session: Option<String>,
    /// The repos that the new workspace spans.
    pub repos: Vec<String>,
    /// The branch to make in each of them.
    pub branch: String,
    /// The first message of the session that gets the work.
    pub brief: String,
    /// Whether the calling workspace waits for the new one.
    pub blocks_caller: bool,
}

/// A pull request to be shown with the calling workspace.
#[derive(Debug)]
pub struct LinkPr {
    pub from_workspace: String,
    pub from_session: Option<String>,
    pub repo_key: Option<String>,
    pub reference: String,
}

/// What the application answers.
#[derive(Debug)]
pub enum Response {
    Accepted {
        workspace_id: String,
        /// The branch that is used, which is another than the one asked for where
        /// that was taken.
        branch: String,
    },
    Linked { repo_key: String, number: u32, url: String, is_branch_pr: bool },
    Rejected { message: String },
}

} // verus!
