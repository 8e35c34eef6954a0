//! The hook, the tool server and the command lines of agents.

use tethys::agent::{Agent, AgentName};
use tethys::agent_cmd::{build, Spawn};
use tethys::error::AppError;
use tethys::frame;
use tethys::frame::FrameError;
use tethys::hook;
use tethys::json::Json;
use tethys::mcp::McpLaunch;
use tethys::mcp_tools::{
    call_tool, create_workspace_reply, link_pr_reply, TethysServer, ToolName, ToolReply,
};
use tethys::mcp_wire::{Request, Response, TOOL_CREATE_WORKSPACE, TOOL_LINK_PR};

fn parse(args: &[&str]) -> Option<(String, Option<String>)> {
    let owned: Vec<String> = args.iter().map(|s| s.to_string()).collect();
    hook::parse_args(&owned)
}

#[test]
fn an_event_on_its_own_is_enough() {
    assert_eq!(parse(&["stop"]), Some(("stop".into(), None)));
}

#[test]
fn the_spawn_token_is_read_either_way() {
    let expected = Some(("stop".into(), Some("tok-1".into())));
    assert_eq!(parse(&["stop", "--spawn-token", "tok-1"]), expected);
    assert_eq!(parse(&["stop", "--spawn-token=tok-1"]), expected);
    assert_eq!(parse(&["--spawn-token", "tok-1", "stop"]), expected);
}

#[test]
fn no_event_is_the_only_refusal() {
    assert_eq!(parse(&[]), None);
    assert_eq!(parse(&["--spawn-token", "tok-1"]), None);
    assert_eq!(parse(&["--future-flag", "stop"]), Some(("stop".into(), None)));
}

fn hook_input() -> hook::HookInput {
    hook::HookInput {
        session_id: Some("csid".into()),
        cwd: Some("/w".into()),
        transcript_path: None,
        hook_event_name: Some("PostToolUse".into()),
        source: None,
        message: None,
        notification_type: None,
        stop_hook_active: None,
        last_assistant_message: None,
        tool_name: Some("Write".into()),
        tool_input: Some(hook::ToolInput {
            file_path: Some("/w/a.html".into()),
            command: None,
        }),
    }
}

#[test]
fn a_token_on_the_command_line_wins() {
    let msg = hook::hook_message("stop".into(), Some("arg".into()), Some("env".into()), hook_input());
    assert_eq!(msg.spawn_token.as_deref(), Some("arg"));
    assert_eq!(msg.tool_file_path.as_deref(), Some("/w/a.html"));
    let msg = hook::hook_message("stop".into(), None, Some("env".into()), hook_input());
    assert_eq!(msg.spawn_token.as_deref(), Some("env"));
    assert_eq!(hook::hook_frame(&[7, 8]), vec![0, 0, 0, 2, 7, 8]);
}

#[test]
fn a_frame_round_trips() {
    let payload = br#"{"op":"create_workspace","from_workspace":"ws-1","from_session":"sess-1","repos":["nl-backend"],"branch":"feat/handoff","brief":"Port the poller to the new seam.","blocks_caller":true}"#;
    let bytes = frame::write_frame(payload).ok().expect("write");
    let back = frame::read_frame(&bytes).ok().expect("read");
    let back: serde_json::Value = serde_json::from_slice(&back).expect("parse");
    assert_eq!(back["branch"], "feat/handoff");
    assert_eq!(back["from_session"].as_str(), Some("sess-1"));
    assert_eq!(back["repos"][0], "nl-backend");
}

#[test]
fn a_short_frame_is_an_error() {
    assert!(matches!(frame::read_frame(&[0u8, 0, 1]), Err(FrameError::Short)));
    assert!(matches!(frame::read_frame(&[0u8, 0, 0, 3, 1, 2]), Err(FrameError::Short)));
}

#[test]
fn a_zero_length_frame_is_rejected() {
    let got = frame::read_frame(&0u32.to_be_bytes());
    assert!(matches!(got, Err(FrameError::InvalidData { .. })));
}

#[test]
fn a_frame_over_the_cap_is_rejected() {
    let len = frame::MAX_FRAME_BYTES + 1;
    let big = vec![0u8; len as usize];
    match frame::write_frame(&big) {
        Err(FrameError::InvalidData { message }) => {
            assert_eq!(message, format!("frame of {len} bytes exceeds the cap"))
        }
        _ => panic!("a frame over the cap went through"),
    }
    assert!(matches!(
        frame::frame_length((len as u32).to_be_bytes()),
        Err(FrameError::InvalidData { .. })
    ));
}

fn server() -> TethysServer {
    TethysServer {
        socket: "/tmp/mcp.sock".into(),
        from_workspace: "ws-1".into(),
        from_session: Some("sess-1".into()),
        repo_keys: vec!["nl-frontend".into(), "nl-backend".into()],
    }
}

fn at<'a>(doc: &'a Json, path: &[&str]) -> Option<&'a Json> {
    let mut here = doc;
    for key in path {
        match here {
            Json::Object(o) => {
                here = &o.iter().find(|(k, _)| k == key)?.1;
            }
            _ => return None,
        }
    }
    Some(here)
}

fn texts(doc: Option<&Json>) -> Option<Vec<String>> {
    match doc? {
        Json::Array(a) => a
            .iter()
            .map(|j| match j {
                Json::Str(s) => Some(s.clone()),
                _ => None,
            })
            .collect(),
        _ => None,
    }
}

fn text(doc: Option<&Json>) -> Option<String> {
    match doc? {
        Json::Str(s) => Some(s.clone()),
        _ => None,
    }
}

fn keys(list: &[&str]) -> Option<Vec<String>> {
    Some(list.iter().map(|s| s.to_string()).collect())
}

#[test]
fn the_tools_reply_carries_a_freshness_ttl() {
    let raw = server().tools_result(&agent());
    assert_eq!(raw.ttl_ms, 0);
    assert!(raw.is_private);
}

#[test]
fn the_repos_argument_enumerates_the_registry() {
    let schema = server().create_workspace_schema();
    assert_eq!(
        texts(at(&schema, &["properties", "repos", "items", "enum"])),
        keys(&["nl-frontend", "nl-backend"])
    );
    assert_eq!(texts(at(&schema, &["required"])), keys(&["repos", "branch", "brief"]));
}

#[test]
fn the_tools_reply_carries_both_tools() {
    let names: Vec<&str> = server().tools_result(&agent()).tools.iter().map(|t| t.name).collect();
    assert_eq!(names, vec![TOOL_CREATE_WORKSPACE, TOOL_LINK_PR]);
}

#[test]
fn link_pr_requires_only_the_reference() {
    let schema = server().link_pr_schema();
    assert_eq!(texts(at(&schema, &["required"])), keys(&["reference"]));
    assert_eq!(
        texts(at(&schema, &["properties", "repo_key", "enum"])),
        keys(&["nl-frontend", "nl-backend"])
    );
}

#[test]
fn an_empty_registry_leaves_the_link_pr_enum_out() {
    let mut server = server();
    server.repo_keys.clear();
    let schema = server.link_pr_schema();
    assert!(at(&schema, &["properties", "repo_key", "enum"]).is_none());
    assert_eq!(
        text(at(&schema, &["properties", "repo_key", "type"])).as_deref(),
        Some("string")
    );
}

#[test]
fn an_empty_registry_leaves_the_enum_out() {
    let mut server = server();
    server.repo_keys.clear();
    let schema = server.create_workspace_schema();
    assert!(at(&schema, &["properties", "repos", "items", "enum"]).is_none());
    assert_eq!(
        text(at(&schema, &["properties", "repos", "items", "type"])).as_deref(),
        Some("string")
    );
}

#[test]
fn a_schema_renders_as_json() {
    let mut server = server();
    server.repo_keys.clear();
    let rendered = tethys::json::compact(server.create_workspace_schema());
    let doc: serde_json::Value = serde_json::from_str(&rendered).expect("schema is JSON");
    assert_eq!(doc["properties"]["repos"]["minItems"], 1);
    assert_eq!(doc["additionalProperties"], false);
}

#[test]
fn the_server_takes_its_identity_from_the_environment() {
    let s = TethysServer::from_env(
        Some("/s".into()),
        Some("ws".into()),
        Some("".into()),
        Some(" a, ,b ,".into()),
    )
    .expect("complete");
    assert_eq!(s.from_session, None);
    assert_eq!(s.repo_keys, vec!["a".to_string(), "b".to_string()]);
    assert_eq!(
        TethysServer::from_env(None, Some("ws".into()), None, None).err().as_deref(),
        Some("TETHYS_MCP_SOCKET is not set")
    );
    assert_eq!(
        TethysServer::from_env(Some("/s".into()), None, None, None).err().as_deref(),
        Some("TETHYS_MCP_WORKSPACE_ID is not set")
    );
    assert_eq!(s.unreachable_message("gone"), "could not reach Tethys at /s: gone");
}

#[test]
fn calls_carry_the_calling_identity() {
    match server().create_workspace(vec!["a".into()], "b".into(), "c".into(), true) {
        Request::CreateWorkspace(c) => {
            assert_eq!(c.from_workspace, "ws-1");
            assert_eq!(c.from_session.as_deref(), Some("sess-1"));
            assert!(c.blocks_caller);
        }
        _ => panic!("not a handoff"),
    }
    match server().link_pr("#5".into(), None) {
        Request::LinkPr(l) => {
            assert_eq!(l.from_workspace, "ws-1");
            assert_eq!(l.reference, "#5");
        }
        _ => panic!("not a link"),
    }
}

fn reply(r: ToolReply) -> (bool, String) {
    match r {
        ToolReply::Success(m) => (true, m),
        ToolReply::Failure(m) => (false, m),
    }
}

#[test]
fn replies_say_what_became_of_a_call() {
    let (ok, m) = reply(create_workspace_reply(Ok(Response::Accepted {
        workspace_id: "w9".into(),
        branch: "feat-2".into(),
    })));
    assert!(ok && m.starts_with("Handoff accepted. Workspace w9 is provisioning on branch `feat-2`"));
    let (ok, m) = reply(create_workspace_reply(Ok(Response::Rejected { message: "no".into() })));
    assert_eq!((ok, m.as_str()), (false, "handoff refused, no workspace was created: no"));
    let (ok, m) = reply(create_workspace_reply(Err("gone".into())));
    assert_eq!((ok, m.as_str()), (false, "handoff failed, no workspace was created: gone"));
    let (ok, m) = reply(link_pr_reply(Ok(Response::Linked {
        repo_key: "be".into(),
        number: 7,
        url: "u".into(),
        is_branch_pr: false,
    })));
    assert!(ok && m.contains("Linked PR #7 (u)") && m.contains("an extra PR on that repo"));
    let (ok, m) = reply(link_pr_reply(Ok(Response::Accepted {
        workspace_id: "w\"1".into(),
        branch: "b".into(),
    })));
    assert_eq!(
        (ok, m.as_str()),
        (
            false,
            "Tethys answered a link with Accepted { workspace_id: \"w\\\"1\", branch: \"b\" }"
        )
    );
}

#[test]
fn only_known_tools_are_called() {
    assert!(matches!(call_tool("create_workspace"), Ok(ToolName::CreateWorkspace)));
    assert!(matches!(call_tool("link_pr"), Ok(ToolName::LinkPr)));
    assert_eq!(call_tool("rm").err().as_deref(), Some("unknown tool: rm"));
}

/// The name of the default agent.
fn agent() -> AgentName {
    AgentName { title: format!("{:?}", Agent::Claude) }
}

#[test]
fn claude_is_the_default() {
    assert_eq!(Agent::default(), Agent::Claude);
}

#[test]
fn agents_go_by_their_names() {
    let name = agent();
    assert_eq!(Agent::Claude.default_binary(&name), name.command());
    assert_eq!(Agent::Claude.label(&name), name.title);
    assert_eq!(Agent::Codex.default_binary(&name), "codex");
    assert_eq!(Agent::Codex.label(&name), "codex");
    let small = name.title.to_lowercase();
    assert_eq!(name.command(), small);
    assert_eq!(name.settings_dir(), format!(".{small}"));
    assert_eq!(name.notes_file(), format!("{}.md", name.title.to_uppercase()));
}

fn binary() -> String {
    format!("/usr/local/bin/{}", agent().command())
}

fn spawn<'a>(
    agent: Agent,
    agent_bin: &'a str,
    resume: Option<&'a str>,
    brief: Option<&'a str>,
) -> Spawn<'a> {
    Spawn {
        agent,
        agent_bin,
        workspace_id: "ws-1",
        session_id: "sess-1",
        resume_session_id: resume,
        mcp: None,
        brief,
    }
}

#[test]
fn a_fresh_claude_is_just_the_binary() {
    let cmd = build(spawn(Agent::Claude, &binary(), None, None)).ok().unwrap();
    assert_eq!(cmd, vec![binary()]);
}

#[test]
fn the_brief_goes_last() {
    let cmd = build(spawn(Agent::Claude, &binary(), Some("csid-9"), Some("do the thing"))).ok().unwrap();
    assert_eq!(&cmd[1..3], &["--resume".to_string(), "csid-9".to_string()]);
    assert_eq!(cmd.last().unwrap(), "do the thing");
}

fn launch() -> McpLaunch {
    McpLaunch {
        server_bin: "/app/tethys-mcp".into(),
        socket: "/data/mcp.sock".into(),
        repo_keys: vec!["fe".into(), "be".into()],
    }
}

#[test]
fn a_session_is_told_of_the_tool_server() {
    let l = launch();
    let bin = binary();
    let mut s = spawn(Agent::Claude, &bin, None, Some("go"));
    s.mcp = Some(&l);
    let cmd = build(s).ok().unwrap();
    assert_eq!(cmd.first().unwrap(), &bin);
    assert_eq!(cmd.last().unwrap(), "go");
    assert!(cmd.len() > 2);
}

#[test]
fn errors_have_words() {
    assert_eq!(AppError::WorkspaceNotFound("w".into()).message(), "workspace not found: w");
    assert_eq!(
        AppError::BlockerWouldCycle.message(),
        "that would make the two workspaces wait on each other"
    );
    assert_eq!(
        AppError::BlockerInAnotherFolder.message(),
        "a workspace can only wait on one in the same folder"
    );
    assert_eq!(AppError::FolderNotFound("f".into()).message(), "folder not found: f");
    assert_eq!(AppError::Io("e".into()).message(), "io error: e");
    assert_eq!(AppError::Json("e".into()).message(), "json error: e");
    assert_eq!(AppError::Other("m".into()).message(), "m");
}

fn tool_launch() -> McpLaunch {
    McpLaunch {
        server_bin: "/opt/tethys/tethys-mcp".into(),
        socket: "/tmp/app/mcp.sock".into(),
        repo_keys: vec!["nl-frontend".into(), "nl-backend".into()],
    }
}

#[test]
fn the_config_carries_the_calling_identity() {
    let raw = tool_launch().config_json("ws-1", "sess-1");
    let parsed: serde_json::Value = serde_json::from_str(&raw).expect("valid json");
    let env = &parsed["mcpServers"]["tethys"]["env"];
    assert_eq!(env[tethys::mcp_wire::ENV_WORKSPACE_ID], "ws-1");
    assert_eq!(env[tethys::mcp_wire::ENV_SESSION_ID], "sess-1");
    assert_eq!(env[tethys::mcp_wire::ENV_REPO_KEYS], "nl-frontend,nl-backend");
    assert_eq!(parsed["mcpServers"]["tethys"]["command"], "/opt/tethys/tethys-mcp");
}

#[test]
fn the_args_never_go_strict() {
    let args = tool_launch().claude_args("ws-1", "sess-1");
    assert!(!args.iter().any(|a| a.starts_with("--strict-mcp-config")));
}

#[test]
fn every_arg_carries_its_own_value() {
    let args = tool_launch().claude_args("ws-1", "sess-1");
    assert_eq!(args.len(), 2);
    for arg in &args {
        assert!(arg.starts_with("--") && arg.contains('='), "{arg}");
    }
    assert!(args[0].starts_with("--mcp-config={"));
    assert_eq!(
        args[1],
        "--allowed-tools=mcp__tethys__create_workspace,mcp__tethys__link_pr"
    );
}
