//! The binaries of the agents, found once when the application starts.

use vstd::prelude::*;

use crate::agent::Agent;
use crate::error::AppError;

verus! {

/// The default binary of each agent. One that is not installed has an empty path:
/// it is reported when a session is started under it, not before.
#[derive(Debug)]
pub struct AgentBins {
    pub claude: String,
    pub codex: String,
}

/// The path that was found, or an empty one.
pub open spec fn found_or_empty(r: Result<String, AppError>) -> Seq<char> {
    match r {
        Ok(p) => p@,
        Err(_) => seq![],
    }
}

fn or_empty(r: Result<String, AppError>) -> (p: String)
    ensures
        p@ == found_or_empty(r),
{
    match r {
        Ok(p) => p,
        Err(_) => {
            let p = String::new();
            assert(p@ =~= seq![]);
            p
        },
    }
}

impl AgentBins {
    /// Keep what the search for each agent's binary found.
    pub fn resolve_all(claude: Result<String, AppError>, codex: Result<String, AppError>) -> (r:
        Self)
        ensures
            r.claude@ == found_or_empty(claude),
            r.codex@ == found_or_empty(codex),
    {
        AgentBins { claude: or_empty(claude), codex: or_empty(codex) }
    }

    /// The binary of an agent.
    pub fn get(&self, agent: Agent) -> (r: &str)
        ensures
            r@ == (match agent {
                Agent::Claude => self.claude@,
                Agent::Codex => self.codex@,
            }),
    {
        match agent {
            Agent::Claude => self.claude.as_str(),
            Agent::Codex => self.codex.as_str(),
        }
    }
}

} // verus!
