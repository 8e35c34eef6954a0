//! What the user asks for, and what git is asked for on the way.

use tethys::agent::{Agent, AgentName};
use tethys::claude_local;
use tethys::claude_settings::PermissionCategory::Allow;
use tethys::claude_settings::SettingsDoc;
use tethys::commands;
use tethys::commands::{
    ApplyPendingArgs, DetachPrArgs, DismissScriptArgs, ResumeClaudeArgs, ResumePlan,
    StartScriptArgs, SwitchClaudeBinaryArgs,
};
use tethys::error::AppError;
use tethys::git;
use tethys::git::{Failure, Step, WorktreeBranch};
use tethys::handoff;
use tethys::paths::Paths;
use tethys::provision;
use tethys::provision::RepoTeardown;
use tethys::sessions;
use tethys::state::{
    AppState, AttachedPr, ClaudeSessionMeta, Origin, RepoLink, ScriptRunMeta, SessionKind,
    SessionRuntimeState, Workspace,
};

fn agent() -> AgentName {
    AgentName { title: format!("{:?}", Agent::Claude) }
}

fn link(key: &str) -> RepoLink {
    RepoLink {
        repo_key: key.into(),
        worktree_path: format!("/wt/feat/{key}"),
        setup_script_ran_at: None,
        prs: Vec::new(),
        dismissed: Vec::new(),
        github: None,
        attached_prs: vec![
            AttachedPr { number: 3, attached_at: 1, status: None },
            AttachedPr { number: 4, attached_at: 2, status: None },
        ],
        created_branch: true,
        docs: None,
    }
}

fn session(id: &str, claude_session_id: Option<&str>) -> ClaudeSessionMeta {
    ClaudeSessionMeta {
        id: id.into(),
        kind: SessionKind::Claude,
        repo_key: Some("api".into()),
        cwd: "/wt/feat/api".into(),
        claude_session_id: claude_session_id.map(String::from),
        transcript_path: Some("/t.jsonl".into()),
        claude_binary: Some("other".into()),
        hidden: false,
        runtime_state: None,
        notification_type: None,
        turn_acknowledged: false,
    }
}

fn run(id: &str, script: &str) -> ScriptRunMeta {
    ScriptRunMeta {
        id: id.into(),
        repo_key: "api".into(),
        script_name: script.into(),
        command: "yarn".into(),
        cwd: "/wt/feat/api".into(),
        started_at: 1,
    }
}

fn state() -> AppState {
    let mut ws = Workspace::draft("w".into(), "feat".into(), None, Origin::Ui, None, 1);
    ws.repo_links.push(link("api"));
    ws.sessions.push(session("s", Some("conv")));
    ws.sessions.push(session("new", None));
    let empty = Workspace::draft("e".into(), "empty".into(), None, Origin::Ui, None, 1);
    AppState { workspaces: vec![ws, empty], system_errors: Vec::new() }
}

fn said(steps: &[Step]) -> Vec<String> {
    steps
        .iter()
        .map(|s| match s {
            Step::Status { message } => message.clone(),
            Step::RemoveDir { path } => format!("rm -r {path}"),
            Step::MakeParent { path } => format!("parent {path}"),
            Step::MakeDir { path } => format!("mkdir {path}"),
            Step::RemoveEmptyDir { path } => format!("rmdir {path}"),
            Step::Git { args, .. } => format!("git {}", args.join(" ")),
        })
        .collect()
}

#[test]
fn a_detached_pull_request_is_gone_alone() {
    let mut s = state();
    let ws = &mut s.workspaces[0];
    let off = |key: &str| DetachPrArgs {
        workspace_id: "w".into(),
        repo_key: key.into(),
        pr_number: 3,
    };
    assert!(commands::detach_pr(ws, &off("api")).is_ok());
    let left: Vec<u32> = ws.repo_links[0].attached_prs.iter().map(|a| a.number).collect();
    assert_eq!(left, [4]);
    assert_eq!(
        commands::detach_pr(ws, &off("web")).err().unwrap().message(),
        "workspace has no worktree for web"
    );
}

#[test]
fn a_workspace_is_opened_at_its_root() {
    let s = state();
    assert_eq!(commands::open_in_vscode(&s, "w").ok().unwrap(), "/wt/feat");
    assert_eq!(
        commands::open_in_vscode(&s, "e").err().unwrap().message(),
        "workspace has no repos yet — nothing to open"
    );
    assert!(matches!(
        commands::open_in_vscode(&s, "zz"),
        Err(AppError::WorkspaceNotFound(id)) if id == "zz"
    ));
    assert_eq!(commands::vscode_cli(false), "code");
    assert_eq!(commands::vscode_cli(true), commands::VSCODE_CLI_BUNDLED);
    assert_eq!(
        commands::editor_unspawned("/a", "gone").message(),
        "failed to open /a in Visual Studio Code: gone"
    );
    assert_eq!(
        commands::editor_exited("/a", "1").message(),
        "Visual Studio Code exited 1 opening /a"
    );
}

#[test]
fn a_session_is_taken_up_where_it_can_be() {
    let s = state();
    let args = |id: &str| ResumeClaudeArgs {
        workspace_id: "w".into(),
        repo_key: None,
        session_meta_id: id.into(),
    };
    match commands::resume_claude_session(&s, &args("s"), true) {
        Ok(ResumePlan::Reattach { cwd }) => assert_eq!(cwd, "/wt/feat/api"),
        _ => panic!("it is still there"),
    }
    match commands::resume_claude_session(&s, &args("s"), false) {
        Ok(ResumePlan::Restart { claude_session_id, session_binary }) => {
            assert_eq!(claude_session_id, "conv");
            assert_eq!(session_binary.as_deref(), Some("other"));
        }
        _ => panic!("it can be taken up"),
    }
    let why = |id: &str| {
        commands::resume_claude_session(&s, &args(id), false).err().unwrap().message()
    };
    assert_eq!(why("new"), "session has no claude_session_id yet — resume not possible");
    assert_eq!(why("zz"), "no session zz in workspace w");
}

#[test]
fn a_session_goes_on_under_another_binary() {
    let s = state();
    let args = |id: &str, bin: &str| SwitchClaudeBinaryArgs {
        workspace_id: "w".into(),
        session_meta_id: id.into(),
        claude_binary: bin.into(),
    };
    let name = agent();
    assert_eq!(commands::binary_name(&args("s", " b \n"), &name).ok().unwrap(), "b");
    assert_eq!(
        commands::binary_name(&args("s", "  "), &name).err().unwrap().message(),
        format!("no {} binary name provided", name.command())
    );
    let on_disk = commands::transcript_of(&s, &args("s", "b")).ok().unwrap();
    assert_eq!(on_disk.as_deref(), Some("/t.jsonl"));
    let kept = commands::switch_claude_binary(&s, &args("s", "b"), true).ok().unwrap();
    assert_eq!(kept.repo_key.as_deref(), Some("api"));
    assert_eq!(kept.resume.as_deref(), Some("conv"));
    let afresh = commands::switch_claude_binary(&s, &args("s", "b"), false).ok().unwrap();
    assert_eq!(afresh.resume, None);
    assert_eq!(
        commands::switch_claude_binary(&s, &args("zz", "b"), true).err().unwrap().message(),
        "no session zz in workspace w"
    );
    assert!(commands::transcript_of(&s, &args("zz", "b")).is_err());
}

#[test]
fn the_runs_of_scripts_are_written_down_and_dropped() {
    let mut s = state();
    for (id, script) in [("1", "dev"), ("2", "test"), ("3", "dev")] {
        assert!(commands::record_script(&mut s, "w", run(id, script)).is_ok());
    }
    assert!(matches!(
        commands::record_script(&mut s, "zz", run("4", "dev")),
        Err(AppError::WorkspaceNotFound(id)) if id == "zz"
    ));
    let again = StartScriptArgs {
        workspace_id: "w".into(),
        repo_key: "api".into(),
        script_name: "dev".into(),
    };
    commands::clear_script_runs(&mut s, &again);
    assert_eq!(s.workspaces[0].script_runs.len(), 1);
    assert_eq!(s.workspaces[0].script_runs[0].id, "2");
    let off = DismissScriptArgs { workspace_id: "w".into(), script_id: "2".into() };
    commands::dismiss_script(&mut s, &off);
    assert!(s.workspaces[0].script_runs.is_empty());
}

#[test]
fn what_must_not_be_done_is_refused() {
    let pending = |keys: &[&str]| ApplyPendingArgs {
        id: "p".into(),
        target_repo_keys: keys.iter().map(|k| k.to_string()).collect(),
    };
    assert!(commands::apply_pending_permission(&pending(&["api"])).is_ok());
    assert_eq!(
        commands::apply_pending_permission(&pending(&[])).err().unwrap().message(),
        "apply_pending_permission: target_repo_keys is empty"
    );
    assert!(commands::remove_orphan_dir("/wt/old", true).is_ok());
    assert_eq!(
        commands::remove_orphan_dir("/etc", false).err().unwrap().message(),
        "refusing to remove /etc: not under worktree_root"
    );
    assert_eq!(
        commands::worktree_taken("/wt/a").message(),
        "a worktree directory already exists at /wt/a. Remove it first or pick a different repo."
    );
}

#[test]
fn a_broken_clone_is_made_again() {
    let fresh = said(&git::ensure_clone("/c", "git@h:r", false, false));
    assert_eq!(fresh, ["cloning git@h:r", "parent /c", "git clone --progress git@h:r /c"]);
    let broken = said(&git::ensure_clone("/c", "git@h:r", true, false));
    assert_eq!(
        broken[..2],
        ["clone at /c is incomplete; removing and retrying", "rm -r /c"]
    );
    assert_eq!(broken[2..], fresh[..]);
    assert_eq!(
        said(&git::ensure_clone("/c", "git@h:r", true, true)),
        ["clone already present at /c"]
    );
    assert_eq!(
        git::removal_failed("/c", "busy").message(),
        "failed to remove broken clone at /c: busy"
    );
    assert_eq!(
        said(&git::pull_clone("/c")),
        ["updating clone from origin", "git -C /c pull --ff-only"]
    );
}

#[test]
fn git_failures_are_put_into_words() {
    assert_eq!(git::mentioned("prune", "!", None), "prune exited with None!");
    assert_eq!(git::reported("rm", Some(-1), " no \n").message(), "rm exited with Some(-1): no");
    assert_eq!(git::quoted("rm", " no \n").message(), "rm: no");
}

#[test]
fn a_branch_comes_from_where_it_is() {
    let here = git::plan_branch("b", true, true);
    assert!(matches!(here.source, WorktreeBranch::ExistingLocal) && !here.created_branch);
    let there = git::plan_branch("b", false, true);
    assert!(matches!(&there.source, WorktreeBranch::TrackRemote(s) if s == "origin/b"));
    assert!(there.created_branch);
    let nowhere = git::plan_branch("b", false, false);
    assert!(matches!(nowhere.source, WorktreeBranch::NewFromHead) && nowhere.created_branch);
    assert_eq!(
        git::branch_exists("/c", "b").join(" "),
        "-C /c show-ref --verify --quiet refs/heads/b"
    );
    assert_eq!(
        git::remote_branch_exists("/c", "origin", "b").join(" "),
        "-C /c show-ref --verify --quiet refs/remotes/origin/b"
    );
}

#[test]
fn a_worktree_is_taken_down_with_the_branch_it_made() {
    let down = |created_branch: bool| RepoTeardown {
        repo_key: "api".into(),
        clone_path: "/c".into(),
        worktree_path: "/wt/a".into(),
        branch: "b".into(),
        created_branch,
    };
    assert!(provision::teardown_repo_worktree(&down(true), false).is_empty());
    let kept = said(&provision::teardown_repo_worktree(&down(false), true));
    assert_eq!(
        kept,
        [
            "removing worktree /wt/a",
            "git -C /c worktree remove --force /wt/a",
            "git -C /c worktree prune",
        ]
    );
    let gone = said(&provision::teardown_repo_worktree(&down(true), true));
    assert_eq!(gone[..3], kept[..]);
    assert_eq!(gone[3..], ["deleting branch b", "git -C /c branch -D b"]);
    assert_eq!(said(&git::branch_delete_best_effort("/c", "b")), gone[3..]);
    assert_eq!(
        said(&git::worktree_remove("/c", "/wt/a", false)),
        ["removing worktree /wt/a", "git -C /c worktree remove /wt/a"]
    );
    assert!(matches!(
        git::branch_delete_best_effort_silent("/c", "b"),
        Step::Git { failure: Failure::Ignore, .. }
    ));
}

#[test]
fn the_session_of_a_handoff_waits_for_its_workspace() {
    let (s, brief) = handoff::provision_and_start(true, "w", "/bin/tmux", "go").unwrap();
    assert_eq!((s.workspace_id, s.tmux_bin, brief), ("w", "/bin/tmux", "go"));
    assert!(s.repo_key.is_none() && s.session_binary.is_none());
    assert!(handoff::provision_and_start(false, "w", "/bin/tmux", "go").is_none());
    assert!(handoff::provision_and_start(true, "w", "", "go").is_none());
}

#[test]
fn a_session_says_under_which_id_it_goes() {
    let mut s = state();
    let ws = &mut s.workspaces[0];
    assert!(sessions::correlate(ws, "new", "c2".into(), Some("/u".into())));
    assert_eq!(ws.sessions[1].claude_session_id.as_deref(), Some("c2"));
    assert_eq!(ws.sessions[1].transcript_path.as_deref(), Some("/u"));
    assert!(!sessions::correlate(ws, "zz", "c3".into(), None));
    let at = sessions::spawn_with_id("s".into(), "w".into(), None, "/wt".into(), true);
    assert_eq!(at.runtime_state, SessionRuntimeState::Working);
    let fresh = sessions::spawn_with_id("s".into(), "w".into(), None, "/wt".into(), false);
    assert_eq!(fresh.runtime_state, SessionRuntimeState::WaitingInput);
    assert!(fresh.running);
}

#[test]
fn a_repo_that_comes_later_brings_its_permissions() {
    let mut root = SettingsDoc::read(Some(
        r#"{"_generatedBy":"x","permissions":{"allow":["Read(./api/a)"]}}"#,
    ));
    let repo = SettingsDoc::read(Some(r#"{"permissions":{"allow":["Read(./b)"]}}"#));
    claude_local::append_repo_to_workspace_root_settings(&mut root, "web", &repo);
    let allowed: Vec<String> = root.permissions(Allow).iter().map(|e| e.to_text()).collect();
    assert_eq!(allowed, ["Read(./api/a)", "Read(./web/b)"]);
    let text = root.render().ok().unwrap();
    assert!(!text.contains("_generatedBy"));
    assert!(text.contains(claude_local::SEEDED_MARKER));
    let name = agent();
    assert_eq!(
        claude_local::local_settings("/wt", &name),
        format!("/wt/.{}/settings.local.json", name.command())
    );
}

#[test]
fn everything_of_the_application_is_in_its_directory() {
    let p = Paths { data_dir: "/d".into() };
    let got = [
        p.state_file(),
        p.state_tmp_file(),
        p.logs_dir(),
        p.repos_config_file(),
        p.symlinks_dir(),
        p.hook_socket(),
        p.mcp_socket(),
        p.pending_permissions_file(),
        p.pending_docs_merges_file(),
        p.docs_repo_path("api"),
        p.docs_checkout_path("feat", "api"),
    ];
    assert_eq!(
        got,
        [
            "/d/state.json",
            "/d/state.json.tmp",
            "/d/logs",
            "/d/repos.toml",
            "/d/symlinks",
            "/d/hook.sock",
            "/d/mcp.sock",
            "/d/pending_permissions.json",
            "/d/pending_docs_merges.json",
            "/d/docs/api",
            "/d/docs-worktrees/feat/api",
        ]
    );
}
