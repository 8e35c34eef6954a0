//! The status files that an agent keeps, one for each of its live sessions.
//!
//! A status stays right while a subagent runs and survives a hook that got lost,
//! so it corrects what the hooks missed. It cannot tell a permission prompt from
//! an idle one; that is left to the hooks.

use vstd::prelude::*;

use crate::agent::AgentName;
use crate::state::SessionRuntimeState;
use crate::text;

verus! {

/// What is read of a status file. All of it may be missing.
#[derive(Debug)]
pub struct Probe {
    pub session_id: Option<String>,
    pub status: Option<String>,
    /// The session's working directory, which stays when its id changes.
    pub cwd: Option<String>,
    /// When the status last changed, in milliseconds since the epoch. It orders
    /// two files for one directory.
    pub status_updated_at: Option<i64>,
}

impl Default for Probe {
    fn default() -> (r: Self)
        ensures
            r == (Probe { session_id: None, status: None, cwd: None, status_updated_at: None }),
    {
        Probe { session_id: None, status: None, cwd: None, status_updated_at: None }
    }
}

/// Whose turn it is by a status. `shell` says only that a shell is alive, which
/// it may be on either turn, so it says nothing here.
pub open spec fn status_state(status: Seq<char>) -> Option<SessionRuntimeState> {
    if status == "busy"@ {
        Some(SessionRuntimeState::Working)
    } else if status == "waiting"@ {
        Some(SessionRuntimeState::WaitingInput)
    } else if status == "idle"@ {
        Some(SessionRuntimeState::Idle)
    } else {
        None
    }
}

/// Whose turn it is by a status, where the status can be relied on.
pub fn state_from_status(status: &str) -> (r: Option<SessionRuntimeState>)
    ensures
        r == status_state(status@),
{
    if text::same(status, "busy") {
        Some(SessionRuntimeState::Working)
    } else if text::same(status, "waiting") {
        Some(SessionRuntimeState::WaitingInput)
    } else if text::same(status, "idle") {
        Some(SessionRuntimeState::Idle)
    } else {
        None
    }
}

/// Where the status files are, under the user's home directory.
pub fn sessions_dir(home: &str, name: &AgentName) -> (r: String)
    ensures
        r@ == crate::paths::join(crate::paths::join(home@, name.dir()), "sessions"@),
{
    crate::paths::joined(&crate::paths::joined(home, &name.settings_dir()), "sessions")
}

} // verus!
