//! The tools that a session gets over the application itself: the flags that it
//! is launched with, and what the tools take and say.

use vstd::prelude::*;

use crate::json;
use crate::json::{Json, JsonView};
use crate::mcp_wire;
use crate::paths::Paths;
use crate::registry::{Repo, RepoRegistry};
use crate::text;

verus! {

/// What a session's launch flags are made of.
#[derive(Debug)]
pub struct McpLaunch {
    pub server_bin: String,
    pub socket: String,
    pub repo_keys: Vec<String>,
}

/// The keys of a registry's repos.
pub open spec fn keys_of(repos: Seq<Repo>) -> Seq<Seq<char>> {
    repos.map_values(|r: Repo| r.key@)
}

/// The keys of a registry's repos.
pub(crate) fn repo_keys_of(reg: &RepoRegistry) -> (r: Vec<String>)
    ensures
        text::views(r@) == keys_of(reg.repos@),
{
    let mut r: Vec<String> = Vec::new();
    let mut i: usize = 0;
    while i < reg.repos.len()
        invariant
            i <= reg.repos.len(),
            text::views(r@) == keys_of(reg.repos@).take(i as int),
        decreases reg.repos.len() - i,
    {
        let ghost before = r@;
        r.push(reg.repos[i].key.clone());
        assert(text::views(r@) =~= text::views(before).push(reg.repos@[i as int].key@));
        i = i + 1;
        assert(text::views(r@) =~= keys_of(reg.repos@).take(i as int));
    }
    assert(keys_of(reg.repos@).take(i as int) =~= keys_of(reg.repos@));
    r
}

/// The environment that the server is started with.
pub open spec fn server_env(
    launch: McpLaunch,
    workspace_id: Seq<char>,
    session_id: Seq<char>,
) -> Seq<(Seq<char>, JsonView)> {
    seq![
        (mcp_wire::ENV_SOCKET@, JsonView::Str(launch.socket@)),
        (mcp_wire::ENV_WORKSPACE_ID@, JsonView::Str(workspace_id)),
        (mcp_wire::ENV_SESSION_ID@, JsonView::Str(session_id)),
        (
            mcp_wire::ENV_REPO_KEYS@,
            JsonView::Str(text::join(text::views(launch.repo_keys@), ","@)),
        ),
    ]
}

/// The server's entry in a session's configuration.
pub open spec fn server_entry(
    launch: McpLaunch,
    workspace_id: Seq<char>,
    session_id: Seq<char>,
) -> Seq<(Seq<char>, JsonView)> {
    seq![
        ("command"@, JsonView::Str(launch.server_bin@)),
        ("env"@, JsonView::Object(server_env(launch, workspace_id, session_id))),
    ]
}

/// The servers of a session's configuration.
pub open spec fn servers(
    launch: McpLaunch,
    workspace_id: Seq<char>,
    session_id: Seq<char>,
) -> Seq<(Seq<char>, JsonView)> {
    seq![
        (
            mcp_wire::SERVER_NAME@,
            JsonView::Object(server_entry(launch, workspace_id, session_id)),
        ),
    ]
}

/// A session's configuration of the server. Who is calling is part of it, and no
/// argument of a tool.
pub open spec fn server_config(
    launch: McpLaunch,
    workspace_id: Seq<char>,
    session_id: Seq<char>,
) -> JsonView {
    JsonView::Object(
        seq![("mcpServers"@, JsonView::Object(servers(launch, workspace_id, session_id)))],
    )
}

/// The flags that put the tools in a session's hands. Each carries its own value
/// behind an equals sign: a bare one would swallow the brief that follows.
pub open spec fn launch_args(
    launch: McpLaunch,
    workspace_id: Seq<char>,
    session_id: Seq<char>,
) -> Seq<Seq<char>> {
    seq![
        "--mcp-config="@ + json::compact_text(server_config(launch, workspace_id, session_id)),
        "--allowed-tools=mcp__tethys__create_workspace,mcp__tethys__link_pr"@,
    ]
}

impl McpLaunch {
    /// What sessions are launched with. There is nothing where the server's
    /// binary is missing: a session works without the tools.
    pub fn resolve(paths: &Paths, registry: Option<&RepoRegistry>, server_bin: Option<String>) -> (r:
        Option<Self>)
        ensures
            match server_bin {
                Some(b) => r matches Some(l) && l.server_bin == b && l.socket@ == paths.entry(
                    "mcp.sock"@,
                ) && text::views(l.repo_keys@) == (match registry {
                    Some(reg) => keys_of(reg.repos@),
                    None => seq![],
                }),
                None => r is None,
            },
    {
        let server_bin = match server_bin {
            Some(b) => b,
            None => {
                return None;
            },
        };
        let repo_keys = match registry {
            Some(reg) => repo_keys_of(reg),
            None => {
                let none: Vec<String> = Vec::new();
                assert(text::views(none@) =~= seq![]);
                none
            },
        };
        Some(McpLaunch { server_bin, socket: paths.mcp_socket(), repo_keys })
    }

    /// The configuration as a document.
    pub fn config(&self, workspace_id: &str, session_id: &str) -> (r: Json)
        ensures
            r@ == server_config(*self, workspace_id@, session_id@),
            json::keys_distinct(r@),
    {
        let env = vec![
            json::field(mcp_wire::ENV_SOCKET, json::string(&self.socket)),
            json::field(mcp_wire::ENV_WORKSPACE_ID, json::string(workspace_id)),
            json::field(mcp_wire::ENV_SESSION_ID, json::string(session_id)),
            json::field(
                mcp_wire::ENV_REPO_KEYS,
                json::string(&text::joined(&self.repo_keys, ",")),
            ),
        ];
        let ghost env0 = server_env(*self, workspace_id@, session_id@);
        assert(json::members(env@) =~= env0);
        let entry = vec![
            json::field("command", json::string(&self.server_bin)),
            json::field("env", json::object(env)),
        ];
        let ghost entry0 = server_entry(*self, workspace_id@, session_id@);
        assert(json::members(entry@) =~= entry0);
        let named = vec![json::field(mcp_wire::SERVER_NAME, json::object(entry))];
        let ghost named0 = servers(*self, workspace_id@, session_id@);
        assert(json::members(named@) =~= named0);
        let top = vec![json::field("mcpServers", json::object(named))];
        assert(json::members(top@) =~= seq![("mcpServers"@, JsonView::Object(named0))]);
        proof {
            reveal_strlit("TETHYS_MCP_SOCKET");
            reveal_strlit("TETHYS_MCP_WORKSPACE_ID");
            reveal_strlit("TETHYS_MCP_SESSION_ID");
            reveal_strlit("TETHYS_MCP_REPO_KEYS");
            reveal_strlit("command");
            reveal_strlit("env");
            assert(json::names_distinct(env0)) by {
                assert(mcp_wire::ENV_SOCKET@.len() == 17);
                assert(mcp_wire::ENV_WORKSPACE_ID@.len() == 23);
                assert(mcp_wire::ENV_SESSION_ID@.len() == 21);
                assert(mcp_wire::ENV_REPO_KEYS@.len() == 20);
            }
            json::lemma_object_distinct(env0);
            assert("command"@.len() != "env"@.len());
            assert(json::names_distinct(entry0));
            json::lemma_object_distinct(entry0);
            json::lemma_object_distinct(named0);
            json::lemma_object_distinct(json::members(top@));
        }
        json::object(top)
    }

    /// The configuration as text.
    pub fn config_json(&self, workspace_id: &str, session_id: &str) -> (r: String)
        ensures
            r@ == json::compact_text(server_config(*self, workspace_id@, session_id@)),
            json::reads_as(r@, server_config(*self, workspace_id@, session_id@)),
    {
        let config = self.config(workspace_id, session_id);
        proof {
            let env0 = server_env(*self, workspace_id@, session_id@);
            let entry0 = server_entry(*self, workspace_id@, session_id@);
            let named0 = servers(*self, workspace_id@, session_id@);
            json::lemma_plain_object(env0, 124);
            json::lemma_plain_object(entry0, 125);
            json::lemma_plain_object(named0, 126);
            json::lemma_plain_object(seq![("mcpServers"@, JsonView::Object(named0))], 127);
        }
        json::compact(config)
    }

    /// The flags that put the tools in a session's hands.
    pub fn claude_args(&self, workspace_id: &str, session_id: &str) -> (r: Vec<String>)
        ensures
            text::views(r@) == launch_args(*self, workspace_id@, session_id@),
    {
        let config = text::cat("--mcp-config=", &self.config_json(workspace_id, session_id));
        let mut tools = text::cat3("--allowed-tools=", mcp_wire::ALLOWED_TOOLS[0], ",");
        tools.append(mcp_wire::ALLOWED_TOOLS[1]);
        proof {
            reveal_strlit("--allowed-tools=");
            reveal_strlit("mcp__tethys__create_workspace");
            reveal_strlit(",");
            reveal_strlit("mcp__tethys__link_pr");
            reveal_strlit("--allowed-tools=mcp__tethys__create_workspace,mcp__tethys__link_pr");
            assert(tools@
                =~= "--allowed-tools=mcp__tethys__create_workspace,mcp__tethys__link_pr"@);
        }
        let r = vec![config, tools];
        assert(text::views(r@) =~= launch_args(*self, workspace_id@, session_id@));
        r
    }
}

/// The configuration names one server, by the command that starts it, and hands it the
/// socket that it answers on and the workspace and the session that it answers for.
pub proof fn the_server_knows_its_session(
    launch: McpLaunch,
    workspace_id: Seq<char>,
    session_id: Seq<char>,
)
    ensures
        ({
            let config = server_config(launch, workspace_id, session_id)->Object_0;
            let all = json::object_in(config, "mcpServers"@);
            let server = json::object_in(all, "tethys"@);
            let env = json::object_in(server, "env"@);
            &&& server_config(launch, workspace_id, session_id) is Object
            &&& config.len() == 1 && all.len() == 1
            &&& json::get(server, "command"@) == Some(JsonView::Str(launch.server_bin@))
            &&& env.len() == 4
            &&& json::get(env, "TETHYS_MCP_SOCKET"@) == Some(JsonView::Str(launch.socket@))
            &&& env[1].0 == "TETHYS_MCP_WORKSPACE_ID"@ && env[1].1 == JsonView::Str(workspace_id)
            &&& env[2].0 == "TETHYS_MCP_SESSION_ID"@ && env[2].1 == JsonView::Str(session_id)
            &&& env[3].0 == "TETHYS_MCP_REPO_KEYS"@ && env[3].1 == JsonView::Str(
                text::join(text::views(launch.repo_keys@), seq![',']),
            )
        }),
{
    reveal_strlit("command");
    reveal_strlit("env");
    reveal_strlit(",");
    assert(","@ =~= seq![',']);
    assert("command"@.len() == 7 && "env"@.len() == 3);
    let config = server_config(launch, workspace_id, session_id)->Object_0;
    json::the_first_member_counts(config, "mcpServers"@, 0);
    let all = json::object_in(config, "mcpServers"@);
    json::the_first_member_counts(all, "tethys"@, 0);
    let server = json::object_in(all, "tethys"@);
    json::the_first_member_counts(server, "command"@, 0);
    json::the_first_member_counts(server, "env"@, 1);
    let env = json::object_in(server, "env"@);
    json::the_first_member_counts(env, "TETHYS_MCP_SOCKET"@, 0);
}

} // verus!
