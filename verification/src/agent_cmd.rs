//! The command line that an agent is spawned with.

use vstd::prelude::*;

use crate::agent::Agent;
use crate::error::AppError;
use crate::mcp;
use crate::mcp::McpLaunch;
use crate::text;

verus! {

/// What a command line is made of.
#[derive(Debug)]
pub struct Spawn<'a> {
    pub agent: Agent,
    /// The path of the binary.
    pub agent_bin: &'a str,
    pub workspace_id: &'a str,
    pub session_id: &'a str,
    /// The agent's own id of the conversation that is taken up again.
    pub resume_session_id: Option<&'a str>,
    pub mcp: Option<&'a McpLaunch>,
    /// The first message.
    pub brief: Option<&'a str>,
}

/// `<binary> [--resume <id>] [--mcp-config=… --allowed-tools=…] [prompt]`
pub open spec fn claude_command(
    bin: Seq<char>,
    workspace_id: Seq<char>,
    session_id: Seq<char>,
    resume: Option<Seq<char>>,
    launch: Option<McpLaunch>,
    brief: Option<Seq<char>>,
) -> Seq<Seq<char>> {
    seq![bin] + (match resume {
        Some(id) => seq!["--resume"@, id],
        None => seq![],
    }) + (match launch {
        Some(l) => mcp::launch_args(l, workspace_id, session_id),
        None => seq![],
    }) + (match brief {
        Some(b) => seq![b],
        None => seq![],
    })
}

impl<'a> Spawn<'a> {
    /// The command line of a session of the default agent.
    pub open spec fn claude(self) -> Seq<Seq<char>> {
        claude_command(
            self.agent_bin@,
            self.workspace_id@,
            self.session_id@,
            match self.resume_session_id {
                Some(id) => Some(id@),
                None => None,
            },
            match self.mcp {
                Some(l) => Some(*l),
                None => None,
            },
            match self.brief {
                Some(b) => Some(b@),
                None => None,
            },
        )
    }
}

/// The command line of a session.
pub fn build(spawn: Spawn) -> (r: Result<Vec<String>, AppError>)
    ensures
        match spawn.agent {
            Agent::Claude => r matches Ok(c) && text::views(c@) == spawn.claude(),
            Agent::Codex => r matches Err(e) && e.says("codex sessions are not wired up yet"@),
        },
{
    match spawn.agent {
        Agent::Claude => Ok(claude(&spawn)),
        Agent::Codex => Err(AppError::Other("codex sessions are not wired up yet".to_owned())),
    }
}

/// The command line of a session of the default agent.
pub(crate) fn claude(spawn: &Spawn) -> (r: Vec<String>)
    ensures
        text::views(r@) == spawn.claude(),
{
    let mut command = vec![spawn.agent_bin.to_owned()];
    assert(text::views(command@) =~= seq![spawn.agent_bin@]);
    let ghost mut done = text::views(command@);
    if let Some(id) = spawn.resume_session_id {
        command.push("--resume".to_owned());
        command.push(id.to_owned());
        assert(text::views(command@) =~= done + seq!["--resume"@, id@]);
    }
    proof {
        done = text::views(command@);
    }
    if let Some(mcp) = spawn.mcp {
        let mut args = mcp.claude_args(spawn.workspace_id, spawn.session_id);
        let ghost given = text::views(args@);
        command.append(&mut args);
        assert(text::views(command@) =~= done + given);
    }
    proof {
        done = text::views(command@);
    }
    if let Some(brief) = spawn.brief {
        command.push(brief.to_owned());
        assert(text::views(command@) =~= done + seq![brief@]);
    }
    assert(text::views(command@) =~= spawn.claude());
    command
}

/// The brief comes last, behind every flag, and every flag in front of it carries
/// its own value: a session that resumes nothing has its brief as its only
/// argument that is no flag.
pub proof fn the_brief_goes_last(
    bin: Seq<char>,
    workspace_id: Seq<char>,
    session_id: Seq<char>,
    resume: Option<Seq<char>>,
    launch: Option<McpLaunch>,
    brief: Seq<char>,
)
    ensures
        claude_command(bin, workspace_id, session_id, resume, launch, Some(brief)).last() == brief,
        claude_command(bin, workspace_id, session_id, resume, launch, Some(brief)).drop_last()
            == claude_command(bin, workspace_id, session_id, resume, launch, None),
        forall|k: int|
            0 < k < claude_command(bin, workspace_id, session_id, None, launch, None).len()
                ==> "--"@.is_prefix_of(
                #[trigger] claude_command(bin, workspace_id, session_id, None, launch, None)[k],
            ) && claude_command(bin, workspace_id, session_id, None, launch, None)[k].contains('='),
{
    let with = claude_command(bin, workspace_id, session_id, resume, launch, Some(brief));
    let bare = claude_command(bin, workspace_id, session_id, resume, launch, None);
    assert(with.drop_last() =~= bare);
    reveal_strlit("--");
    reveal_strlit("--mcp-config=");
    reveal_strlit("--allowed-tools=mcp__tethys__create_workspace,mcp__tethys__link_pr");
    let fresh = claude_command(bin, workspace_id, session_id, None, launch, None);
    if launch is Some {
        let args = mcp::launch_args(launch->0, workspace_id, session_id);
        assert(fresh =~= seq![bin] + args);
        assert(args[0][12] == '=');
        assert(args[1][15] == '=');
    } else {
        assert(fresh =~= seq![bin]);
    }
}

/// The command starts with the program, takes up a conversation exactly where there is
/// one, by its id, and is given the server's arguments exactly where there is a server.
pub proof fn what_the_command_is_made_of(
    bin: Seq<char>,
    workspace_id: Seq<char>,
    session_id: Seq<char>,
    id: Seq<char>,
    launch: McpLaunch,
)
    ensures
        claude_command(bin, workspace_id, session_id, None, None, None) == seq![bin],
        claude_command(bin, workspace_id, session_id, Some(id), None, None) == seq![
            bin,
            "--resume"@,
            id,
        ],
        claude_command(bin, workspace_id, session_id, None, Some(launch), None).len() == 3,
        claude_command(bin, workspace_id, session_id, None, Some(launch), None)[0] == bin,
        "--mcp-config="@.is_prefix_of(
            claude_command(bin, workspace_id, session_id, None, Some(launch), None)[1],
        ),
        claude_command(bin, workspace_id, session_id, Some(id), Some(launch), None) == seq![
            bin,
            "--resume"@,
            id,
        ] + mcp::launch_args(launch, workspace_id, session_id),
{
    let e: Seq<Seq<char>> = seq![];
    let args = mcp::launch_args(launch, workspace_id, session_id);
    assert(claude_command(bin, workspace_id, session_id, None, None, None) =~= seq![bin]);
    assert(claude_command(bin, workspace_id, session_id, Some(id), None, None) =~= seq![
        bin,
        "--resume"@,
        id,
    ]);
    let c = claude_command(bin, workspace_id, session_id, None, Some(launch), None);
    assert(c =~= seq![bin] + args);
    let p = "--mcp-config="@;
    assert(args[0].take(p.len() as int) =~= p);
    assert(claude_command(bin, workspace_id, session_id, Some(id), Some(launch), None) =~= seq![
        bin,
        "--resume"@,
        id,
    ] + args);
}

} // verus!
