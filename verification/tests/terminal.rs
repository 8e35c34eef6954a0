//! Terminals, the sessions in them, and the shell.

use tethys::agent::{Agent, AgentName};
use tethys::agent_bin;
use tethys::hook::HookMessage;
use tethys::probe::{sessions_dir, state_from_status, Probe};
use tethys::pty::{append_to_ring, remove_subscriber, Ring, Subscriber};
use tethys::scrollback::strip_queries;
use tethys::sessions::{
    find_hook_session, freshest_probe_per_cwd, handle_hook_event, heal_session_id,
    parent_session_from_subagent_path, persist_turn, plan_probe_reconciliation, reattach_tmux,
    reconcile_probes, record_session, spawn_claude, spawn_with_id, start_session,
    trim_detach_epilogue,
    HookReaction, ProbeAction, ProbeView, SessionStart, SessionSupervisor, StartSession,
    TrackedSession, TurnChanged, TurnSeen, PENDING_TTL,
};
use tethys::shell::{extract_path, which, which_command, WhichOutcome};
use tethys::state::{
    AppState, ClaudeSessionMeta, Origin, SessionKind, SessionRuntimeState, Workspace,
};

fn ring_bytes(ring: &Ring) -> Vec<u8> {
    ring.iter().copied().collect()
}

#[test]
fn remove_subscriber_drops_only_the_matching_channel() {
    let mut subs = vec![Subscriber { id: 1, sink: "a" }, Subscriber { id: 2, sink: "b" }];
    remove_subscriber(&mut subs, 1);
    assert_eq!(subs.len(), 1);
    assert_eq!(subs[0].id, 2);
}

#[test]
fn remove_subscriber_ignores_unknown_id() {
    let mut subs = vec![Subscriber { id: 1, sink: "a" }];
    remove_subscriber(&mut subs, u32::MAX);
    assert_eq!(subs.len(), 1);
}

#[test]
fn append_within_capacity_keeps_everything() {
    let mut ring = Ring::new();
    append_to_ring(&mut ring, b"abc", 8);
    append_to_ring(&mut ring, b"de", 8);
    assert_eq!(ring_bytes(&ring), b"abcde");
}

#[test]
fn append_over_capacity_evicts_from_front() {
    let mut ring = Ring::new();
    append_to_ring(&mut ring, b"abcd", 4);
    append_to_ring(&mut ring, b"ef", 4);
    assert_eq!(ring_bytes(&ring), b"cdef");
}

#[test]
fn append_larger_than_capacity_keeps_tail() {
    let mut ring = Ring::new();
    append_to_ring(&mut ring, b"seed", 4);
    append_to_ring(&mut ring, b"0123456789", 4);
    assert_eq!(ring_bytes(&ring), b"6789");
}

fn strip(s: &str) -> String {
    String::from_utf8(strip_queries(s.as_bytes())).unwrap()
}

#[test]
fn codex_startup_queries_are_removed() {
    let startup = "\x1b[?2004h\x1b[>4;0m\x1b[>5u\x1b[?1004h\x1b[6n\x1b]10;?\x1b\\\x1b]11;?\x1b\\\x1b[?u\x1b[c";
    assert_eq!(strip(startup), "\x1b[?2004h\x1b[>4;0m\x1b[>5u\x1b[?1004h");
}

#[test]
fn device_attribute_queries_go() {
    assert_eq!(strip("a\x1b[cb"), "ab");
    assert_eq!(strip("a\x1b[>cb"), "ab");
    assert_eq!(strip("a\x1b[=cb"), "ab");
    assert_eq!(strip("a\x1b[0cb"), "ab");
}

#[test]
fn cursor_position_and_status_requests_go() {
    assert_eq!(strip("a\x1b[6nb"), "ab");
    assert_eq!(strip("a\x1b[5nb"), "ab");
    assert_eq!(strip("a\x1b[?6nb"), "ab");
}

#[test]
fn colour_queries_go_with_either_terminator() {
    assert_eq!(strip("a\x1b]11;?\x1b\\b"), "ab");
    assert_eq!(strip("a\x1b]10;?\x07b"), "ab");
    assert_eq!(strip("a\x1b]4;1;?\x07b"), "ab");
}

#[test]
fn ordinary_output_is_untouched() {
    for seq in [
        "plain text\r\n",
        "\x1b[1;32mgreen\x1b[0m",
        "\x1b[2J\x1b[H",
        "\x1b[10C\x1b[5A",
        "\x1b[?2004h",
        "\x1b[?1004h",
        "\x1b]0;a window title\x07",
        "\x1b]8;;https://example.com\x07link\x1b]8;;\x07",
    ] {
        assert_eq!(strip(seq), seq, "mangled {seq:?}");
    }
}

#[test]
fn set_commands_that_look_like_queries_survive() {
    assert_eq!(strip("\x1b[0 q"), "\x1b[0 q");
    assert_eq!(strip("\x1b[2 q"), "\x1b[2 q");
    assert_eq!(strip("\x1b[>1u"), "\x1b[>1u");
    assert_eq!(strip("\x1b[<u"), "\x1b[<u");
    assert_eq!(strip("\x1b[>0q"), "");
}

#[test]
fn a_sequence_cut_off_at_the_ring_edge_is_kept() {
    assert_eq!(strip("output\x1b[38;5;"), "output\x1b[38;5;");
    assert_eq!(strip("output\x1b]11;"), "output\x1b]11;");
    assert_eq!(strip("output\x1b"), "output\x1b");
}

#[test]
fn nothing_in_nothing_out() {
    assert_eq!(strip(""), "");
}

#[test]
fn stale_ghost_probe_does_not_block_healing() {
    let stored_id = "b6a26662".to_string();
    let sess_id = "tethys-sess".to_string();
    let ws_id = "ws".to_string();
    let cwd = "/wt/custom-fill-in-field/nl-ai";
    let probes = [
        ProbeView {
            sid: "b6a26662",
            cwd: Some(cwd),
            state: SessionRuntimeState::Working,
            status_updated_at: Some(1_784_158_540_640),
        },
        ProbeView {
            sid: "14a3fff4",
            cwd: Some(cwd),
            state: SessionRuntimeState::Idle,
            status_updated_at: Some(1_784_573_092_544),
        },
    ];
    let sessions = [TrackedSession {
        workspace_id: &ws_id,
        session_id: &sess_id,
        cwd: Some(cwd),
        claude_session_id: Some(&stored_id),
        running: true,
    }];

    let actions = plan_probe_reconciliation(&probes, &sessions);

    assert_eq!(
        actions,
        vec![ProbeAction {
            workspace_id: ws_id,
            session_id: sess_id,
            state: SessionRuntimeState::Idle,
            heal_to: Some("14a3fff4".to_string()),
        }]
    );
}

#[test]
fn matching_probe_applies_state_without_healing() {
    let stored_id = "sid-1".to_string();
    let sess_id = "sess".to_string();
    let ws_id = "ws".to_string();
    let probes = [ProbeView {
        sid: "sid-1",
        cwd: Some("/wt/a"),
        state: SessionRuntimeState::WaitingInput,
        status_updated_at: Some(10),
    }];
    let sessions = [TrackedSession {
        workspace_id: &ws_id,
        session_id: &sess_id,
        cwd: Some("/wt/a"),
        claude_session_id: Some(&stored_id),
        running: true,
    }];
    let actions = plan_probe_reconciliation(&probes, &sessions);
    assert_eq!(
        actions,
        vec![ProbeAction {
            workspace_id: ws_id,
            session_id: sess_id,
            state: SessionRuntimeState::WaitingInput,
            heal_to: None,
        }]
    );
}

#[test]
fn probe_never_resurrects_a_dead_session() {
    let stored_id = "sid-1".to_string();
    let sess_id = "sess".to_string();
    let ws_id = "ws".to_string();
    let probes = [ProbeView {
        sid: "sid-1",
        cwd: Some("/wt/a"),
        state: SessionRuntimeState::Working,
        status_updated_at: Some(10),
    }];
    let sessions = [TrackedSession {
        workspace_id: &ws_id,
        session_id: &sess_id,
        cwd: Some("/wt/a"),
        claude_session_id: Some(&stored_id),
        running: false,
    }];
    assert!(plan_probe_reconciliation(&probes, &sessions).is_empty());
}

#[test]
fn the_freshest_probe_of_a_directory_counts() {
    let view = |sid: &'static str, at: Option<i64>| ProbeView {
        sid,
        cwd: Some("/wt"),
        state: SessionRuntimeState::Idle,
        status_updated_at: at,
    };
    let got = freshest_probe_per_cwd(&[view("a", Some(1)), view("b", Some(9)), view("c", None)]);
    assert_eq!(got.len(), 1);
    assert_eq!(got[0].sid, "b");
    let stamped = freshest_probe_per_cwd(&[view("a", None), view("b", Some(i64::MIN))]);
    assert_eq!(stamped.len(), 1);
    assert_eq!(stamped[0].sid, "b");
}

/// The name of the default agent.
fn agent() -> AgentName {
    AgentName { title: format!("{:?}", Agent::Claude) }
}

#[test]
fn extracts_parent_uuid_from_subagent_transcript() {
    let parent = "0bd83a02-04d6-4139-b007-388eea214e22";
    let dir = agent().settings_dir();
    let path = format!(
        "/Users/ryan/{dir}/projects/-Users-ryan-code-worktrees-foo/{parent}/subagents/agent-a9cc54ae168591b32.jsonl"
    );
    assert_eq!(parent_session_from_subagent_path(&path).as_deref(), Some(parent));
}

#[test]
fn returns_none_for_parent_level_transcript() {
    let parent = "0bd83a02-04d6-4139-b007-388eea214e22";
    let dir = agent().settings_dir();
    let path =
        format!("/Users/ryan/{dir}/projects/-Users-ryan-code-worktrees-foo/{parent}.jsonl");
    assert_eq!(parent_session_from_subagent_path(&path), None);
}

#[test]
fn returns_none_for_unrelated_path() {
    assert_eq!(parent_session_from_subagent_path("/tmp/foo.jsonl"), None);
    assert_eq!(parent_session_from_subagent_path(""), None);
}

fn meta(id: &str, cwd: &str, claude: Option<&str>) -> ClaudeSessionMeta {
    ClaudeSessionMeta {
        id: id.into(),
        kind: SessionKind::Claude,
        repo_key: None,
        cwd: cwd.into(),
        claude_session_id: claude.map(String::from),
        transcript_path: None,
        claude_binary: None,
        hidden: false,
        runtime_state: None,
        notification_type: None,
        turn_acknowledged: false,
    }
}

fn one_workspace(sessions: Vec<ClaudeSessionMeta>) -> AppState {
    let mut ws = Workspace::draft("ws".into(), "feat".into(), None, Origin::Ui, None, 0);
    ws.sessions = sessions;
    AppState { workspaces: vec![ws], system_errors: Vec::new() }
}

fn message(event: &str, session: Option<&str>, token: Option<&str>) -> HookMessage {
    HookMessage {
        event: event.into(),
        session_id: session.map(String::from),
        cwd: None,
        transcript_path: None,
        hook_event_name: None,
        source: None,
        message: None,
        notification_type: None,
        stop_hook_active: None,
        last_assistant_message: None,
        tool_name: None,
        tool_file_path: None,
        tool_command: None,
        spawn_token: token.map(String::from),
    }
}

#[test]
fn hooks_say_whose_turn_it_is() {
    let turn = |event: &str, kind: Option<&str>| {
        let mut m = message(event, Some("c"), None);
        m.notification_type = kind.map(String::from);
        match handle_hook_event(&m) {
            HookReaction::Turn { state, notification_type } => Some((state, notification_type)),
            _ => None,
        }
    };
    assert_eq!(turn("stop", None), Some((SessionRuntimeState::Idle, None)));
    assert_eq!(turn("pre-tool", None), Some((SessionRuntimeState::Working, None)));
    assert_eq!(
        turn("notify", Some("idle_prompt")),
        Some((SessionRuntimeState::WaitingInput, Some("idle_prompt".into())))
    );
    assert_eq!(turn("notify", Some("auth_success")), None);
    assert_eq!(
        turn("permission-request", None),
        Some((SessionRuntimeState::WaitingInput, Some("permission_request".into())))
    );
    assert!(matches!(
        handle_hook_event(&message("session-start", None, None)),
        HookReaction::SessionStart
    ));
}

#[test]
fn a_hook_is_matched_by_its_own_id_before_that_of_its_parent() {
    let state = one_workspace(vec![meta("s1", "/wt", Some("up")), meta("s2", "/wt", Some("c"))]);
    let mut m = message("stop", Some("c"), None);
    m.transcript_path = Some("/p/up/subagents/agent-1.jsonl".into());
    assert_eq!(find_hook_session(&state, &m), Some(("ws".to_string(), "s2".to_string())));
    m.session_id = Some("unknown".into());
    assert_eq!(find_hook_session(&state, &m), Some(("ws".to_string(), "s1".to_string())));
}

#[test]
fn a_hook_is_matched_by_id_before_directory() {
    let state = one_workspace(vec![meta("s1", "/wt", None), meta("s2", "/other", Some("c"))]);
    let mut m = message("stop", Some("c"), None);
    m.cwd = Some("/wt".into());
    assert_eq!(find_hook_session(&state, &m), Some(("ws".to_string(), "s2".to_string())));
    m.session_id = Some("rotated".into());
    assert_eq!(find_hook_session(&state, &m), Some(("ws".to_string(), "s1".to_string())));
    m.session_id = None;
    assert_eq!(find_hook_session(&state, &m), None);
}

#[test]
fn a_spawn_is_correlated_by_its_token_once() {
    let mut sup = SessionSupervisor::new();
    sup.expect("tok".into(), "ws".into(), "s1".into(), 0);
    assert!(matches!(
        sup.handle_session_start(message("session-start", Some("c"), None)),
        SessionStart::NotOurs
    ));
    assert!(matches!(
        sup.handle_session_start(message("session-start", None, Some("tok"))),
        SessionStart::Nameless
    ));
    match sup.handle_session_start(message("session-start", Some("c"), Some("tok"))) {
        SessionStart::Correlated { session_id, claude_session_id, .. } => {
            assert_eq!((session_id.as_str(), claude_session_id.as_str()), ("s1", "c"));
        }
        other => panic!("{other:?}"),
    }
    assert!(matches!(
        sup.handle_session_start(message("session-start", Some("c"), Some("tok"))),
        SessionStart::Unexpected
    ));
    sup.expect("old".into(), "ws".into(), "s2".into(), 0);
    sup.expect("new".into(), "ws".into(), "s3".into(), PENDING_TTL + 1);
    assert_eq!(sup.pending.len(), 1, "what was waited for in vain is forgotten");
}

#[test]
fn a_session_is_started_under_a_fresh_id() {
    let bin = format!("/bin/{}", agent().command());
    let a = spawn_claude("ws", None, "/wt", &bin, None, None, Some("go"));
    let b = spawn_claude("ws", None, "/wt", &bin, None, None, None);
    assert_eq!(a.info.id.len(), 36);
    assert_ne!(a.info.id, b.info.id);
    assert_ne!(a.token, b.token);
    assert_eq!(a.command.last().unwrap(), "go");
    assert!(a.info.running);
    let mut sup = SessionSupervisor::new();
    let id = a.info.id.clone();
    sup.insert(a.info);
    assert_eq!(sup.find(&id).ok(), Some(0));
    assert_eq!(sup.find("zzz").err().unwrap().message(), "session not found: zzz");
    assert_eq!(sup.list_for_workspace("ws", &[], &[]).len(), 1);
    assert!(sup.list_for_workspace("other", &[], &[]).is_empty());
    assert_eq!(
        reattach_tmux("s".into(), "ws".into(), None, "/wt".into(), false).err().unwrap().message(),
        "tmux session s no longer exists"
    );
}

fn seen(id: &str, state: SessionRuntimeState, needs_turn: bool, working: bool) -> TurnSeen {
    TurnSeen {
        session_id: id.into(),
        runtime_state: state,
        notification_type: None,
        turn_acknowledged: false,
        needs_turn,
        working,
    }
}

#[test]
fn sessions_are_listed_as_they_are_now() {
    let mut sup = SessionSupervisor::new();
    for (id, ws) in [("s1", "ws"), ("s2", "other"), ("s3", "ws"), ("s4", "ws")] {
        sup.insert(spawn_with_id(id.into(), ws.into(), Some("api".into()), "/wt".into(), false));
    }
    let mut asks = seen("s3", SessionRuntimeState::WaitingInput, true, false);
    asks.notification_type = Some("permission_prompt".into());
    asks.turn_acknowledged = true;
    let turns = [
        seen("s1", SessionRuntimeState::Dormant, false, false),
        asks,
        seen("s3", SessionRuntimeState::Idle, false, false),
    ];
    let list = sup.list_for_workspace("ws", &["s1".into(), "s2".into()], &turns);
    let ids: Vec<&str> = list.iter().map(|s| s.id.as_str()).collect();
    assert_eq!(ids, ["s1", "s3", "s4"]);
    let running: Vec<bool> = list.iter().map(|s| s.running).collect();
    assert_eq!(running, [false, true, true]);
    assert_eq!(list[0].runtime_state, SessionRuntimeState::Dormant);
    assert_eq!(list[1].runtime_state, SessionRuntimeState::WaitingInput);
    assert_eq!(list[1].notification_type.as_deref(), Some("permission_prompt"));
    assert!(list[1].turn_acknowledged && list[1].needs_turn && !list[1].working);
    assert_eq!(list[1].repo_key.as_deref(), Some("api"));
    assert_eq!(list[2].runtime_state, SessionRuntimeState::WaitingInput);
    assert!(!list[2].needs_turn && !list[2].working);
    let work = [seen("s4", SessionRuntimeState::Working, false, true)];
    assert!(sup.list_for_workspace("ws", &[], &work)[2].working);
}

#[test]
fn a_session_starts_in_its_workspace() {
    let state = one_workspace(Vec::new());
    let req = StartSession {
        workspace_id: "nope",
        repo_key: None,
        tmux_bin: "/bin/tmux",
        session_binary: None,
    };
    assert!(start_session(&state, &req).is_err());
}

#[test]
fn turns_and_ids_are_written_down() {
    let mut state = one_workspace(vec![meta("s1", "/wt", Some("old"))]);
    let ws = &mut state.workspaces[0];
    persist_turn(
        ws,
        TurnChanged {
            workspace_id: "ws".into(),
            session_id: "s1".into(),
            runtime_state: SessionRuntimeState::Idle,
            notification_type: None,
            turn_acknowledged: true,
        },
    );
    assert_eq!(ws.sessions[0].runtime_state, Some(SessionRuntimeState::Idle));
    heal_session_id(ws, "s1", "new".into());
    assert_eq!(ws.sessions[0].claude_session_id.as_deref(), Some("new"));
    let bin = format!("/bin/{}", agent().command());
    let plan = spawn_claude("ws", None, "/wt", &bin, Some("new"), None, None);
    record_session(ws, &plan.info, None, Some("new"));
    assert_eq!(ws.sessions.len(), 1, "what takes a conversation up again replaces the old");
    assert_eq!(ws.sessions[0].id, plan.info.id);
}

#[test]
fn probes_are_read_against_the_state() {
    let state = one_workspace(vec![meta("s1", "/wt", Some("c"))]);
    let probe = |status: &str| Probe {
        session_id: Some("c".into()),
        status: Some(status.into()),
        cwd: Some("/wt".into()),
        status_updated_at: Some(1),
    };
    let running = vec!["s1".to_string()];
    let got = reconcile_probes(&[probe("busy")], &state, &running);
    assert_eq!(got.len(), 1);
    assert_eq!(got[0].state, SessionRuntimeState::Working);
    assert!(reconcile_probes(&[probe("shell")], &state, &running).is_empty());
    assert!(reconcile_probes(&[probe("busy")], &state, &[]).is_empty());
}

#[test]
fn the_epilogue_of_a_detach_goes() {
    let mut ring: Ring = b"output\r\n[detached (from session abc)]\r\n".iter().copied().collect();
    trim_detach_epilogue(&mut ring);
    assert!(!String::from_utf8(ring_bytes(&ring)).unwrap().contains("[detached"));
    let mut ring: Ring = b"plain output".iter().copied().collect();
    trim_detach_epilogue(&mut ring);
    assert_eq!(ring_bytes(&ring), b"plain output");
}

#[test]
fn plain_output() {
    let bin = format!("/usr/local/bin/{}", agent().command());
    assert_eq!(extract_path(&format!("{bin}\n")), bin);
}

#[test]
fn iterm_osc_prefix() {
    let bin = format!("/Users/ryan/.local/bin/{}", agent().command());
    let raw =
        format!("\x1b]1337;RemoteHost=ryan@host\x07\x1b]1337;CurrentDir=/cwd\x07{bin}\n");
    assert_eq!(extract_path(&raw), bin);
}

#[test]
fn rejects_names_that_could_break_out_of_the_which_command() {
    let name = agent().command();
    for bad in [
        String::new(),
        "cla ude".to_string(),
        format!("{name}'"),
        format!("{name}\""),
        format!("{name}; rm -rf /"),
    ] {
        let err = which_command(&bad).err().unwrap().message();
        assert!(err.contains("invalid binary name"), "{bad:?} -> {err}");
        assert_eq!(err, format!("invalid binary name: {bad:?}"));
    }
}

#[test]
fn no_bell_returns_trimmed_input() {
    assert_eq!(extract_path("  /opt/homebrew/bin/tmux  \n"), "/opt/homebrew/bin/tmux");
}

#[test]
fn which_reads_what_the_shell_said() {
    let done = |s: &str| WhichOutcome::Done { stdout: s.into() };
    assert_eq!(which("tmux", None, done("/bin/tmux\n")).ok().as_deref(), Some("/bin/tmux"));
    assert!(which("tmux", Some("brew"), done("tmux not found\n")).is_err());
    assert_eq!(
        which("tmux", None, WhichOutcome::Failed { stderr: " ".into() }).err().unwrap().message(),
        "`which tmux` via /bin/zsh failed: no stderr"
    );
    assert_eq!(
        which("tmux", None, WhichOutcome::Unspawned { error: "e".into() })
            .err()
            .unwrap()
            .message(),
        "failed to invoke /bin/zsh: e"
    );
    assert!(which_command(&format!("{}-hipaa", agent().command())).is_ok());
    let bins = agent_bin::AgentBins::resolve_all(
        Ok("/bin/agent".into()),
        which("codex", None, done("")),
    );
    assert_eq!(bins.get(Agent::Claude), "/bin/agent");
    assert_eq!(bins.get(Agent::Codex), "");
}

#[test]
fn busy_maps_to_working() {
    assert_eq!(state_from_status("busy"), Some(SessionRuntimeState::Working));
}

#[test]
fn waiting_and_idle_map_through() {
    assert_eq!(state_from_status("waiting"), Some(SessionRuntimeState::WaitingInput));
    assert_eq!(state_from_status("idle"), Some(SessionRuntimeState::Idle));
}

#[test]
fn shell_is_not_authoritative() {
    assert_eq!(state_from_status("shell"), None);
}

#[test]
fn unknown_status_is_ignored() {
    assert_eq!(state_from_status("teapot"), None);
    let name = agent();
    assert_eq!(sessions_dir("/home/me", &name), format!("/home/me/.{}/sessions", name.command()));
}

#[test]
fn a_replay_asks_nothing() {
    let raw = b"a\x1b[c\x1b[31mred\x1b]11;?\x07\x1b[6n\x1b";
    let once = strip_queries(raw);
    assert_eq!(once, b"a\x1b[31mred\x1b");
    assert_eq!(strip_queries(&once), once);
}

#[test]
fn a_broken_sequence_hides_no_question() {
    assert_eq!(strip_queries(b"\x1b[\x1b[c"), b"\x1b[");
    assert_eq!(strip_queries(b"\x1b[31\n\x1b[6nx"), b"\x1b[31\nx");
    assert_eq!(strip_queries(b"\x1b[ 0c"), b"\x1b[ 0c");
}
