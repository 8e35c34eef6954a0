//! Workspaces: their branches, their worktrees, their docs, and their end.

use tethys::agent::{Agent, AgentName};
use tethys::commands;
use tethys::error::AppError;
use tethys::git;
use tethys::git::{Failure, LineBuffer, Step, WorktreeBranch};
use tethys::handoff;
use tethys::job::{last_event, JobEvent};
use tethys::handoff::{validate_branch, BranchSearch, Reservation};
use tethys::managed_docs;
use tethys::managed_docs::{
    Archiving, DocsProvision, LinkDecision, MergeOutcome, PendingDocsMergesFile, Snapshot,
    SnapshotAction, SnapshotEvent,
};
use tethys::mcp_wire::CreateWorkspace;
use tethys::paths::Paths;
use tethys::provision;
use tethys::provision::{
    RepoAction, RepoEvent, RepoProvision, RootDoc, WorkspaceAction, WorkspaceEvent,
    WorkspaceProvision,
};
use tethys::provision_queue::{Admission, ProvisionQueue};
use tethys::purge;
use tethys::purge::LinkPurge;
use tethys::registry::{Repo, RepoRegistry};
use tethys::scripts::{script_exit_hook, ScriptSupervisor, SpawnRequest};
use tethys::state::{
    AppState, ClaudeSessionMeta, DocsLink, Origin, RepoLink, ScriptRunMeta, SessionKind, SystemErrorEntry,
    Workspace, WorkspaceStatus,
};

/// The name of the default agent.
fn agent() -> AgentName {
    AgentName { title: format!("{:?}", Agent::Claude) }
}

fn paths() -> Paths {
    Paths { data_dir: "/data".into() }
}

fn repo(key: &str, setup_script: Option<&str>) -> Repo {
    Repo {
        key: key.into(),
        remote_url: "git@example.com:me/repo.git".into(),
        default_branch: None,
        default_setup_script: setup_script.map(String::from),
        setup_timeout_secs: Some(30),
        copy_files: Vec::new(),
        scripts: vec![("dev".into(), "yarn dev".into())],
        managed_docs: true,
        github_slug: None,
    }
}

fn registry(repos: Vec<Repo>) -> RepoRegistry {
    RepoRegistry { worktree_root: "/wt".into(), repos }
}

fn link(key: &str, created_branch: bool) -> RepoLink {
    RepoLink {
        repo_key: key.into(),
        worktree_path: format!("/wt/feat/{key}"),
        setup_script_ran_at: None,
        prs: Vec::new(),
        dismissed: Vec::new(),
        github: None,
        attached_prs: Vec::new(),
        created_branch,
        docs: None,
    }
}

fn workspace(id: &str, links: Vec<RepoLink>) -> Workspace {
    let mut ws = Workspace::draft(id.into(), "feat".into(), None, Origin::Ui, None, 1);
    ws.repo_links = links;
    ws
}

fn state(workspaces: Vec<Workspace>) -> AppState {
    AppState { workspaces, system_errors: Vec::new() }
}

fn git_args(steps: &[Step]) -> Vec<Vec<String>> {
    steps
        .iter()
        .filter_map(|s| match s {
            Step::Git { args, .. } => Some(args.clone()),
            _ => None,
        })
        .collect()
}

fn args(list: &[&str]) -> Vec<String> {
    list.iter().map(|s| s.to_string()).collect()
}

#[test]
fn switches_clone_back_to_default_branch() {
    let steps = git::ensure_clone_on_default_branch("/c", None, Some("main"), Some("stray"));
    assert_eq!(git_args(&steps), vec![args(&["-C", "/c", "checkout", "main"])]);
}

#[test]
fn switches_clone_to_overridden_branch() {
    let steps =
        git::ensure_clone_on_default_branch("/c", Some("develop"), Some("main"), Some("main"));
    assert_eq!(git_args(&steps), vec![args(&["-C", "/c", "checkout", "develop"])]);
}

#[test]
fn leaves_clone_on_default_branch_untouched() {
    assert_eq!(git::origin_default_branch(true, "origin/main\n").as_deref(), Some("main"));
    assert_eq!(git::current_branch(true, "main\n").as_deref(), Some("main"));
    let steps = git::ensure_clone_on_default_branch("/c", None, Some("main"), Some("main"));
    assert!(steps.is_empty());
}

#[test]
fn worktree_add_checks_out_existing_local_branch() {
    let steps = git::worktree_add("/c", "/wt", "feature", &WorktreeBranch::ExistingLocal);
    assert_eq!(
        git_args(&steps),
        vec![args(&["-C", "/c", "worktree", "add", "/wt", "feature"])]
    );
}

#[test]
fn worktree_add_existing_local_rejects_branch_in_use() {
    let steps = git::worktree_add("/c", "/wt2", "feature", &WorktreeBranch::ExistingLocal);
    match steps.last().unwrap() {
        Step::Git { failure: Failure::Abort { what }, .. } => {
            assert_eq!(git::aborted(what, Some(128)).message(), "git worktree add /wt2 exited with Some(128)");
        }
        other => panic!("{other:?}"),
    }
}

#[test]
fn output_is_split_where_progress_overwrites_itself() {
    let mut b = LineBuffer::new();
    let mut got = b.feed(b"Cloning\r10%\r2");
    got.extend(b.feed(b"0%\r\ndone"));
    assert_eq!(got, vec![b"Cloning".to_vec(), b"10%".to_vec(), b"20%".to_vec()]);
    assert_eq!(b.finish(), Some(b"done".to_vec()));
}

fn run_to_worktree(run: &mut RepoProvision, here: bool) -> RepoAction {
    for _ in 0..3 {
        provision::provision_repo_worktree(run, RepoEvent::Done, 0);
    }
    let a = provision::provision_repo_worktree(run, RepoEvent::Found(here), 0);
    if here {
        a
    } else {
        provision::provision_repo_worktree(run, RepoEvent::Found(false), 0)
    }
}

#[test]
fn provisions_a_worktree_on_a_fresh_branch() {
    let (mut run, first) =
        RepoProvision::start(&repo("api", None), "/wt/ws-1/api".into(), "feat/new".into());
    assert!(matches!(first, RepoAction::Clone));
    assert!(matches!(
        run_to_worktree(&mut run, false),
        RepoAction::AddWorktree(WorktreeBranch::NewFromHead)
    ));
    provision::provision_repo_worktree(&mut run, RepoEvent::Done, 0);
    provision::provision_repo_worktree(&mut run, RepoEvent::Done, 0);
    match provision::provision_repo_worktree(&mut run, RepoEvent::Done, 0) {
        RepoAction::Finish(Ok(link)) => {
            assert!(link.created_branch, "Tethys created this branch, so it owns it");
            assert_eq!(link.worktree_path, "/wt/ws-1/api");
        }
        other => panic!("{other:?}"),
    }
}

#[test]
fn checking_out_an_existing_branch_does_not_claim_ownership() {
    let (mut run, _) =
        RepoProvision::start(&repo("api", None), "/wt/ws-2/api".into(), "feat/shared".into());
    assert!(matches!(
        run_to_worktree(&mut run, true),
        RepoAction::AddWorktree(WorktreeBranch::ExistingLocal)
    ));
    assert!(!run.created_branch, "the branch already existed — Purge must never delete it");
}

fn fail_setup(here: bool) -> (RepoAction, RepoAction) {
    let (mut run, _) =
        RepoProvision::start(&repo("api", Some("exit 7")), "/wt/x/api".into(), "feat/x".into());
    run_to_worktree(&mut run, here);
    provision::provision_repo_worktree(&mut run, RepoEvent::Done, 0);
    provision::provision_repo_worktree(&mut run, RepoEvent::Done, 0);
    let setup = provision::provision_repo_worktree(&mut run, RepoEvent::Done, 0);
    assert!(matches!(setup, RepoAction::RunSetup(s) if s == "exit 7"));
    let e = AppError::Other("setup exited with 7".into());
    let undo = provision::provision_repo_worktree(&mut run, RepoEvent::Failed(e), 0);
    let end = provision::provision_repo_worktree(&mut run, RepoEvent::Done, 0);
    (undo, end)
}

#[test]
fn a_failing_setup_script_removes_the_worktree_and_its_own_branch() {
    let (undo, end) = fail_setup(false);
    assert!(matches!(undo, RepoAction::TearDown { delete_branch: true }));
    match end {
        RepoAction::Finish(Err(e)) => assert!(e.message().contains('7')),
        other => panic!("{other:?}"),
    }
}

#[test]
fn a_failing_setup_script_leaves_a_pre_existing_branch_intact() {
    let (undo, end) = fail_setup(true);
    assert!(matches!(undo, RepoAction::TearDown { delete_branch: false }));
    assert!(matches!(end, RepoAction::Finish(Err(_))));
}

#[test]
fn configured_files_are_copied_from_the_clone() {
    let plan = provision::copy_configured_files("/c", "/wt", &args(&[".env"]));
    assert!(plan.refused.is_none());
    let copies = plan.copies;
    assert_eq!(copies.len(), 1);
    assert_eq!((copies[0].src.as_str(), copies[0].dst.as_str()), ("/c/.env", "/wt/.env"));
    assert!(provision::is_copied(true, false));
    assert!(!provision::is_copied(true, true));
    assert_eq!(provision::copied_notice(".env"), "copied .env from clone");
}

#[test]
fn copy_files_rejects_paths_that_escape_the_worktree() {
    for bad in ["../outside", "/etc/passwd", "nested/../../escape"] {
        let plan = provision::copy_configured_files("/c", "/wt", &args(&[".env", bad, "b"]));
        let err = plan.refused.unwrap().message();
        assert!(err.contains("relative path"), "{bad}: {err}");
        assert_eq!(plan.copies.len(), 1, "what comes before it is copied");
        assert_eq!(plan.copies[0].rel, ".env");
    }
}

#[test]
fn a_workspace_deleted_while_queued_is_never_built() {
    let mut run = WorkspaceProvision::start(1);
    assert!(matches!(
        provision::provision_workspace(&mut run, WorkspaceEvent::Slot(false)),
        WorkspaceAction::Wait
    ));
    assert!(matches!(
        provision::provision_workspace(&mut run, WorkspaceEvent::Done),
        WorkspaceAction::CheckLive
    ));
    match provision::provision_workspace(&mut run, WorkspaceEvent::Live(false)) {
        WorkspaceAction::Finish(Err(e), JobEvent::Failed { error }) => {
            assert!(e.message().contains("deleted"));
            assert_eq!(error, e.message());
        }
        other => panic!("{other:?}"),
    }
}

#[test]
fn a_failed_workspace_takes_back_what_landed() {
    let mut run = WorkspaceProvision::start(2);
    provision::provision_workspace(&mut run, WorkspaceEvent::Slot(true));
    assert!(matches!(
        provision::provision_workspace(&mut run, WorkspaceEvent::Live(true)),
        WorkspaceAction::Provision(0)
    ));
    assert!(matches!(
        provision::provision_workspace(&mut run, WorkspaceEvent::Provisioned(link("a", true))),
        WorkspaceAction::Provision(1)
    ));
    let e = AppError::Other("no".into());
    match provision::provision_workspace(&mut run, WorkspaceEvent::Failed(e)) {
        WorkspaceAction::TearDown(l) => assert_eq!(l.repo_key, "a"),
        other => panic!("{other:?}"),
    }
    assert!(matches!(
        provision::provision_workspace(&mut run, WorkspaceEvent::Done),
        WorkspaceAction::RemoveRoot
    ));
    assert!(matches!(
        provision::provision_workspace(&mut run, WorkspaceEvent::Done),
        WorkspaceAction::MarkFailed(m) if m == "no"
    ));
    match provision::provision_workspace(&mut run, WorkspaceEvent::Done) {
        WorkspaceAction::Finish(Err(e), JobEvent::Failed { error }) => {
            assert_eq!((e.message().as_str(), error.as_str()), ("no", "no"));
        }
        other => panic!("{other:?}"),
    }
    assert_eq!(provision::rollback_notice("no"), "rolling back: no");
    assert_eq!(provision::teardown_notice("no"), "tearing down partial workspace: no");
    assert_eq!(
        provision::seed_workspace_root(Some("e"), &RootDoc::Written("/p".into()), &agent()),
        args(&["workspace-root settings seed failed: e", "wrote /p"])
    );
    assert!(provision::seed_workspace_root(None, &RootDoc::Unchanged, &agent()).is_empty());
}

#[test]
fn two_workspaces_are_provisioned_one_after_the_other() {
    let mut queue = ProvisionQueue::new();
    let first = match queue.acquire() {
        Admission::Now(s) => s,
        Admission::Later(_) => panic!("an idle queue made a job wait"),
    };
    let ticket = match queue.acquire() {
        Admission::Later(t) => t,
        Admission::Now(_) => panic!("two jobs at once"),
    };
    let (admitted, second) = queue.release(first).expect("the one that waits goes next");
    assert_eq!(admitted, ticket);
    assert!(queue.release(second).is_none());
}

#[test]
fn a_second_job_waits_for_the_first() {
    let mut queue = ProvisionQueue::new();
    let mut running = Vec::new();
    let mut waiting = Vec::new();
    for _ in 0..4 {
        match queue.acquire() {
            Admission::Now(s) => running.push(s),
            Admission::Later(t) => waiting.push(t),
        }
    }
    assert_eq!(running.len(), 1, "two provisioning jobs ran at once");
    let mut done = 1;
    while let Some(slot) = running.pop() {
        if let Some((ticket, next)) = queue.release(slot) {
            assert_eq!(ticket, waiting.remove(0));
            running.push(next);
            done += 1;
        }
        assert!(running.len() <= 1, "two provisioning jobs ran at once");
    }
    assert_eq!(done, 4);
}

#[test]
fn an_idle_queue_admits_immediately() {
    let mut queue = ProvisionQueue::new();
    assert_eq!(queue.ahead(), 0);
    let slot = queue.try_acquire().expect("free slot");
    assert!(queue.try_acquire().is_none(), "the slot is taken until it's dropped");
    assert!(queue.release(slot).is_none());
    assert!(queue.try_acquire().is_some());
}

#[test]
fn waiting_jobs_are_counted_while_they_wait() {
    let mut queue = ProvisionQueue::new();
    let held = queue.try_acquire().expect("free slot");
    assert_eq!(queue.ahead(), 1, "the running job counts");
    for _ in 0..2 {
        assert!(matches!(queue.acquire(), Admission::Later(_)));
    }
    assert_eq!(queue.ahead(), 3);
    assert_eq!(queue.wait_message(), "waiting for 3 workspaces ahead in the setup queue");
    let (_, a) = queue.release(held).unwrap();
    let (_, b) = queue.release(a).unwrap();
    assert!(queue.release(b).is_none());
    assert_eq!(queue.ahead(), 0);
}

#[test]
fn abandoning_a_wait_leaves_no_phantom_in_the_queue() {
    let mut queue = ProvisionQueue::new();
    let held = queue.try_acquire().expect("free slot");
    let ticket = match queue.acquire() {
        Admission::Later(t) => t,
        Admission::Now(_) => panic!("the slot was held"),
    };
    assert_eq!(queue.ahead(), 2);
    queue.abandon(ticket);
    assert_eq!(queue.ahead(), 1, "only the running job is left");
    assert!(queue.release(held).is_none());
    assert_eq!(queue.ahead(), 0);
}

#[test]
fn a_leading_dash_is_refused() {
    assert!(validate_branch("--force").is_err());
    assert!(validate_branch("-x").is_err());
}

#[test]
fn ordinary_branch_names_pass() {
    for ok in ["feat/handoff", "fix-123", "ryan/spike_2"] {
        assert_eq!(validate_branch(ok).ok().as_deref(), Some(ok));
    }
}

#[test]
fn whitespace_and_git_metacharacters_are_refused() {
    for bad in [
        "feat/two words",
        "feat/a..b",
        "feat/a~1",
        "feat/a^",
        "feat/a:b",
        "feat/a?b",
        "feat/a*",
        "/leading",
        "trailing/",
        "double//slash",
        "quote'inject",
        "sub$(shell)",
    ] {
        assert!(validate_branch(bad).is_err(), "{bad} should be refused");
    }
}

#[test]
fn surrounding_whitespace_is_trimmed_not_refused() {
    assert_eq!(validate_branch("  feat/x  ").ok().unwrap(), "feat/x");
}

#[test]
fn a_refused_character_is_shown_escaped() {
    assert!(validate_branch("a'b").err().unwrap().message().contains(r"'\''"));
    assert!(validate_branch("a\tb").err().unwrap().message().contains(r"'\t'"));
}

#[test]
fn a_taken_directory_gets_a_suffix() {
    let (mut search, first) = BranchSearch::start("feat/x".into());
    assert!(matches!(first, Reservation::Check { dir } if dir == "feat-x"));
    match search.reserve_branch(&[], true) {
        Reservation::Check { dir } => assert_eq!(dir, "feat-x-2"),
        other => panic!("{other:?}"),
    }
    match search.reserve_branch(&args(&["other"]), false) {
        Reservation::Reserved { branch, dir } => {
            assert_eq!((branch.as_str(), dir.as_str()), ("feat/x-2", "feat-x-2"));
        }
        other => panic!("{other:?}"),
    }
}

#[test]
fn work_is_handed_to_a_new_workspace() {
    let mut s = state(vec![workspace("ws-1", vec![link("api", true)])]);
    let reg = registry(vec![repo("api", None)]);
    let req = |repos: &[&str], brief: &str| CreateWorkspace {
        from_workspace: "ws-1".into(),
        from_session: None,
        repos: args(repos),
        branch: "feat/y".into(),
        brief: brief.into(),
        blocks_caller: true,
    };
    assert!(handoff::check_handoff(&s, &reg, req(&["nope"], "b")).is_err());
    assert!(handoff::check_handoff(&s, &reg, req(&["api"], "  ")).is_err());
    let checked = handoff::check_handoff(&s, &reg, req(&["api"], "b")).ok().unwrap();
    let got = handoff::accept(&mut s, &checked, "feat/y".into(), 9);
    assert_eq!(got.branch, "feat/y");
    assert_eq!(got.workspace_id.len(), 36);
    assert_eq!(s.workspaces.len(), 2);
    let caller = s.workspaces.iter().find(|w| w.id == "ws-1").unwrap();
    assert_eq!(caller.blocked_by.as_deref(), Some(got.workspace_id.as_str()));
}

#[test]
fn transcript_none_is_not_resumable() {
    assert!(!commands::transcript_is_resumable(None));
}

#[test]
fn missing_transcript_is_not_resumable() {
    assert!(!commands::transcript_is_resumable(Some((false, 0))));
}

#[test]
fn empty_transcript_is_not_resumable() {
    assert!(!commands::transcript_is_resumable(Some((true, 0))));
}

#[test]
fn nonempty_transcript_is_resumable() {
    assert!(commands::transcript_is_resumable(Some((true, 34))));
}

#[test]
fn a_deletion_can_be_taken_back() {
    let mut s = state(vec![workspace("a", vec![link("api", true)])]);
    assert!(commands::delete_workspace(&mut s, "a", 5).is_ok());
    assert_eq!(s.workspaces[0].deleted_at, Some(5));
    assert!(commands::cancel_delete_workspace(&mut s, "a").is_ok());
    assert_eq!(s.workspaces[0].deleted_at, None);
    assert!(matches!(
        commands::delete_workspace(&mut s, "zz", 5),
        Err(AppError::WorkspaceNotFound(_))
    ));
    assert!(commands::archive_workspace(&mut s, "a", 6).is_ok());
    assert_eq!(s.workspaces[0].archived_at, Some(6));
    assert!(commands::unarchive_workspace(&mut s, "a").is_ok());
    assert_eq!(s.workspaces[0].archived_at, None);
}

#[test]
fn workspaces_are_put_in_the_order_asked_for() {
    let mut s = state(vec![
        workspace("a", vec![]),
        workspace("b", vec![]),
        workspace("c", vec![]),
    ]);
    assert!(commands::reorder_workspaces(&mut s, &args(&["c", "a"])).is_ok());
    let ids: Vec<&str> = s.workspaces.iter().map(|w| w.id.as_str()).collect();
    assert_eq!(ids, vec!["c", "a", "b"]);
}

#[test]
fn files_on_the_clipboard_are_read() {
    let got = commands::read_clipboard_file_paths(true, "0", "[\"/a\",\"/b c\"]", "");
    assert_eq!(got.ok().unwrap(), args(&["/a", "/b c"]));
    assert_eq!(
        commands::read_clipboard_file_paths(false, "1", "", " no \n").err().unwrap().message(),
        "osascript exited 1: no"
    );
    assert!(commands::read_clipboard_file_paths(true, "0", "[1]", "").is_err());
}

#[test]
fn a_deleted_workspace_is_purged_after_an_hour() {
    let mut gone = workspace("gone", vec![]);
    gone.deleted_at = Some(0);
    let mut fresh = workspace("fresh", vec![]);
    fresh.deleted_at = Some(10);
    let mut s = state(vec![gone, fresh, workspace("live", vec![])]);
    assert_eq!(purge::candidates(&s, purge::PURGE_GRACE_MS), args(&["gone"]));
    assert!(purge::candidates(&s, purge::PURGE_GRACE_MS - 1).is_empty());
    purge::purge_workspace(&mut s, "gone");
    assert_eq!(s.workspaces.len(), 2);
    purge::purge_workspace(&mut s, "live");
    assert_eq!(s.workspaces.len(), 2);
    let live = workspace("live", vec![link("api", true)]);
    assert!(matches!(
        purge::purge_link(&paths(), &live, &live.repo_links[0], true, true),
        LinkPurge::Skip
    ));
    assert_eq!(purge::root_to_remove(&live, true, true, true), None);
}

#[test]
fn only_branches_of_our_own_are_purged() {
    let mut ws = workspace("w", vec![link("api", true), link("web", false)]);
    ws.deleted_at = Some(0);
    match purge::purge_link(&paths(), &ws, &ws.repo_links[0], true, true) {
        LinkPurge::RemoveWorktree { clone, worktree, branch } => {
            assert_eq!(clone, paths().repo_clone_path("api"));
            assert_eq!(worktree, "/wt/feat/api");
            assert_eq!(branch.as_deref(), Some("feat"));
        }
        _ => panic!("the worktree stays"),
    }
    match purge::purge_link(&paths(), &ws, &ws.repo_links[1], true, true) {
        LinkPurge::RemoveWorktree { branch, .. } => assert_eq!(branch, None),
        _ => panic!("the worktree stays"),
    }
    assert!(matches!(
        purge::purge_link(&paths(), &ws, &ws.repo_links[0], true, false),
        LinkPurge::RemoveDir(_)
    ));
    assert!(matches!(
        purge::purge_link(&paths(), &ws, &ws.repo_links[0], false, true),
        LinkPurge::Skip
    ));
    assert_eq!(purge::root_to_remove(&ws, true, true, true).as_deref(), Some("/wt/feat"));
    assert_eq!(purge::root_to_remove(&ws, true, true, false), None);
    assert_eq!(purge::remove_failed("/p", "busy").message(), "failed to remove /p: busy");
}

#[test]
fn the_error_log_keeps_the_latest() {
    let mut s = state(vec![]);
    let ws = workspace("w", vec![]);
    for i in 0..(purge::MAX_ENTRIES as i64 + 5) {
        let e: SystemErrorEntry = purge::purge_error(&ws, i, &AppError::Io("x".into()));
        purge::record_system_error(&mut s, e);
    }
    assert_eq!(s.system_errors.len(), purge::MAX_ENTRIES);
    assert_eq!(s.system_errors[0].at, 5);
    let last = s.system_errors.last().unwrap();
    assert_eq!(last.message, "io error: x");
    assert_eq!(last.kind, "purge");
    let id = last.id.clone();
    commands::dismiss_system_error(&mut s, &id);
    assert_eq!(s.system_errors.len(), purge::MAX_ENTRIES - 1);
}

fn request(command: &str) -> SpawnRequest {
    SpawnRequest {
        workspace_id: "w".into(),
        repo_key: "api".into(),
        script_name: "dev".into(),
        command: command.into(),
        cwd: "/wt".into(),
    }
}

#[test]
fn scripts_run_in_sessions_of_their_own() {
    let init = args(&["set", "-g"]);
    let launch = ScriptSupervisor::start("tethys", &init, request("yarn dev"), 7);
    assert_eq!(&launch.tmux_args[..4], args(&["-L", "tethys", "set", "-g"]));
    assert_eq!(launch.tmux_args.last().unwrap(), "yarn dev");
    assert!(launch.tmux_args.contains(&launch.info.id));
    let mut sup = ScriptSupervisor::new();
    let id = launch.info.id.clone();
    sup.insert(launch.info);
    assert_eq!(sup.find(&id).ok(), Some(0));
    assert_eq!(sup.find("x").err().unwrap().message(), "script not found: x");
    assert!(sup.list_for_workspace("w", &[])[0].running);
    assert!(!sup.list_for_workspace("w", &[id.clone()])[0].running);
    assert!(sup.list_for_workspace("v", &[]).is_empty());
    assert_eq!(sup.kill_for_workspace("w"), vec![id.clone()]);
    assert_eq!(sup.prior_runs("w", "api", "dev"), vec![id.clone()]);
    assert!(sup.prior_runs("w", "api", "test").is_empty());
    sup.dismiss(&id);
    assert!(sup.scripts.is_empty());
    let again =
        ScriptSupervisor::reattach_tmux("tethys", &[], "i".into(), request("c"), 1, true).ok().unwrap();
    assert_eq!(again.tmux_args, args(&["-L", "tethys", "attach-session", "-d", "-t", "i"]));
    assert!(ScriptSupervisor::reattach_tmux("t", &[], "i".into(), request("c"), 1, false).is_err());
}

#[test]
fn a_script_that_ended_is_forgotten() {
    let mut ws = workspace("w", vec![]);
    for id in ["r1", "r2"] {
        ws.script_runs.push(ScriptRunMeta {
            id: id.into(),
            repo_key: "api".into(),
            script_name: "dev".into(),
            command: "c".into(),
            cwd: "/wt".into(),
            started_at: 0,
        });
    }
    let mut s = state(vec![ws]);
    script_exit_hook(&mut s, "w", "r1");
    assert_eq!(s.workspaces[0].script_runs.len(), 1);
    script_exit_hook(&mut s, "nope", "r2");
    assert_eq!(s.workspaces[0].script_runs.len(), 1);
}

fn provisioned(adopted: [bool; 2], id: &str, branch: &str) -> DocsProvision {
    managed_docs::provision(&repo("repo", None), adopted, id, branch, "/wt/x/repo", &paths())
}

#[test]
fn provision_empty_docs_repo_creates_branch_no_symlinks() {
    match provisioned([false, false], "abcd1234ffff", "feat/foo") {
        DocsProvision::Provision { branch, exclude_lines, .. } => {
            assert_eq!(branch, "ws/feat-foo-abcd1234");
            assert_eq!(exclude_lines, args(&["/CONTEXT.md", "/docs/adr"]));
        }
        other => panic!("{other:?}"),
    }
    assert!(matches!(
        managed_docs::link_decision("CONTEXT.md", false, false),
        LinkDecision::Absent
    ));
    match provisioned([false, false], "99998888aaaa", "feat/bar") {
        DocsProvision::Provision { branch, .. } => assert_eq!(branch, "ws/feat-bar-99998888"),
        other => panic!("{other:?}"),
    }
}

#[test]
fn provision_symlinks_existing_context_md() {
    assert!(matches!(
        managed_docs::link_decision("CONTEXT.md", true, false),
        LinkDecision::Link { .. }
    ));
    assert!(matches!(
        managed_docs::link_decision("CONTEXT.md", true, true),
        LinkDecision::Present { .. }
    ));
}

#[test]
fn team_adopted_paths_are_skipped() {
    match provisioned([true, false], "abcd1234", "feat/foo") {
        DocsProvision::Provision { candidates, .. } => {
            assert!(!candidates.iter().any(|c| c.path == "CONTEXT.md"));
        }
        other => panic!("{other:?}"),
    }
    assert!(matches!(
        provisioned([true, true], "99998888", "feat/bar"),
        DocsProvision::Skip { .. }
    ));
}

#[test]
fn ensure_docs_repo_is_idempotent_and_commitable() {
    let steps = managed_docs::ensure_docs_repo("/data/docs/repo", false);
    let git = git_args(&steps);
    assert_eq!(git[0], args(&["init", "-b", "main", "/data/docs/repo"]));
    assert!(git.iter().any(|a| a.contains(&"user.name".to_string())));
    assert!(managed_docs::ensure_docs_repo("/data/docs/repo", true).is_empty());
}

#[test]
fn exclude_entries_are_idempotent() {
    let lines = args(&["/CONTEXT.md", "/docs/adr"]);
    let once = managed_docs::append_exclude_lines("# old", &lines).expect("both are missing");
    assert_eq!(once, "# old\n/CONTEXT.md\n/docs/adr\n");
    assert_eq!(managed_docs::append_exclude_lines(&once, &lines), None);
}

fn snapshot(retro: bool, there: bool, differs: bool) -> Option<String> {
    let (mut run, _) = Snapshot::start("feat/foo".into(), retro);
    let mut event = SnapshotEvent::Found(there);
    loop {
        event = match managed_docs::snapshot_link(&mut run, event) {
            SnapshotAction::Finish(r) => return r.ok().unwrap(),
            SnapshotAction::FindBranch => SnapshotEvent::Found(there),
            SnapshotAction::FindCheckout => SnapshotEvent::Found(true),
            SnapshotAction::FindChanges => SnapshotEvent::Found(differs),
            SnapshotAction::Compare { base } => {
                assert_eq!(base, "abc");
                SnapshotEvent::Found(differs)
            }
            SnapshotAction::FindBase => SnapshotEvent::Said("abc\n".into()),
            SnapshotAction::ReadDiff { .. } => SnapshotEvent::Said("+edited".into()),
            SnapshotAction::Commit { message } => {
                assert_eq!(message, "snapshot from workspace feat/foo");
                SnapshotEvent::Done
            }
            _ => SnapshotEvent::Done,
        };
    }
}

fn merge(branch: &str, diff: &str) -> managed_docs::PendingDocsMerge {
    managed_docs::pending_merge("abcd1234", "feat/foo", "repo", branch, diff.into(), 3)
}

#[test]
fn snapshot_commits_symlink_edit_and_parks_pending() {
    let diff = snapshot(false, true, true).expect("there is something to merge");
    let mut file = PendingDocsMergesFile { entries: Vec::new() };
    assert!(managed_docs::snapshot_for_purge(&mut file, vec![merge("ws/feat-foo", &diff)]));
    assert_eq!(file.entries.len(), 1);
    assert!(file.entries[0].diff.contains("edited"));
    assert!(!file.entries[0].conflicted);
}

#[test]
fn snapshot_deletes_unchanged_branch_silently() {
    assert_eq!(snapshot(false, true, false), None);
}

#[test]
fn snapshot_twice_diff_case_parks_one_entry() {
    let mut file = PendingDocsMergesFile { entries: Vec::new() };
    managed_docs::snapshot_for_purge(&mut file, vec![merge("ws/feat-foo", "d")]);
    assert!(!managed_docs::snapshot_for_purge(&mut file, vec![merge("ws/feat-foo", "d")]));
    assert_eq!(file.entries.len(), 1);
}

#[test]
fn snapshot_twice_no_diff_case_second_succeeds() {
    assert_eq!(snapshot(false, false, false), None);
}

#[test]
fn approve_lands_clean_merge_on_main() {
    let mut file = PendingDocsMergesFile { entries: vec![merge("ws/feat-foo", "d")] };
    let id = file.entries[0].id.clone();
    assert!(managed_docs::approve(&mut file, &id, &paths(), MergeOutcome::Merged).is_ok());
    assert!(file.entries.is_empty());
    assert!(managed_docs::approve(&mut file, &id, &paths(), MergeOutcome::Merged).is_err());
}

#[test]
fn approve_conflict_retains_entry_and_leaves_main_untouched() {
    let mut file = PendingDocsMergesFile { entries: vec![merge("ws/feat-b", "d")] };
    let id = file.entries[0].id.clone();
    let outcome = MergeOutcome::Conflicted { unmerged: "CONTEXT.md\n".into() };
    let err = managed_docs::approve(&mut file, &id, &paths(), outcome).err().unwrap().message();
    assert!(err.contains("conflict"));
    assert!(file.entries[0].conflicted);
    assert!(file.entries[0].conflict_files.iter().any(|f| f == "CONTEXT.md"));
}

#[test]
fn decline_archives_branch_and_removes_entry() {
    let mut file = PendingDocsMergesFile { entries: vec![merge("ws/feat-foo-abcd1234", "d")] };
    let id = file.entries[0].id.clone();
    let (mut names, first) = Archiving::start(file.entries[0].docs_branch.clone());
    assert_eq!(first, "archive/feat-foo-abcd1234");
    assert_eq!(names.next().as_deref(), Some("archive/feat-foo-abcd1234-2"));
    assert!(managed_docs::decline(&mut file, &id).is_ok());
    assert!(file.entries.is_empty());
}

#[test]
fn retro_adoption_captures_untracked_context_md() {
    let reg = registry(vec![repo("repo", None)]);
    let adoptable = managed_docs::is_adoptable(true, false, false);
    assert!(managed_docs::retro_applies(Some(&reg), "repo", true, [adoptable, false]));
    assert_eq!(managed_docs::docs_branch("feat/foo", "abcd1234"), "ws/feat-foo-abcd1234");
    assert!(snapshot(true, false, true).is_some());
}

#[test]
fn retro_adoption_skips_team_adopted_context() {
    let reg = registry(vec![repo("repo", None)]);
    let adoptable = managed_docs::is_adoptable(true, false, true);
    assert!(!managed_docs::retro_applies(Some(&reg), "repo", true, [adoptable, false]));
}

#[test]
fn retro_adoption_respects_managed_docs_false() {
    let mut r = repo("repo", None);
    r.managed_docs = false;
    let reg = registry(vec![r]);
    assert!(!managed_docs::retro_applies(Some(&reg), "repo", true, [true, true]));
}

#[test]
fn a_workspace_is_created_and_grown() {
    let reg = registry(vec![repo("api", None), repo("web", None)]);
    let mut s = state(vec![]);
    let made = commands::check_create(&commands::CreateWorkspaceArgs {
        workspace_id: "w".into(),
        branch: " feat/x ".into(),
        repo_selections: args(&["api"]),
        claude_binary: None,
    })
    .ok()
    .unwrap();
    let plan =
        commands::create_workspace(&mut s, &reg, made, &args(&["api"]), false, 1).ok().unwrap();
    assert_eq!(plan.workspace_dir, "feat-x");
    assert!(matches!(s.workspaces[0].status, WorkspaceStatus::Creating));
    s.workspaces[0].repo_links.push(link("api", true));
    let add = commands::AddRepoArgs { workspace_id: "w".into(), repo_key: "web".into() };
    let grow = commands::add_repo_to_workspace(&s, &reg, &add).ok().unwrap();
    assert_eq!(grow.worktree_path, "/wt/feat-x/web");
    assert!(commands::push_link(&mut s.workspaces[0], link("web", true)).is_ok());
    assert!(commands::push_link(&mut s.workspaces[0], link("web", true)).is_err());
    let run = commands::StartScriptArgs {
        workspace_id: "w".into(),
        repo_key: "api".into(),
        script_name: "dev".into(),
    };
    let plan = commands::start_script(&s, &reg, "/bin/tmux", &run).ok().unwrap();
    assert_eq!((plan.command.as_str(), plan.cwd.as_str()), ("yarn dev", "/wt/feat/api"));
    assert!(commands::start_script(&s, &reg, "", &run).is_err());
}

#[test]
fn a_session_can_be_hidden() {
    let mut ws = workspace("w", vec![]);
    ws.sessions.push(ClaudeSessionMeta {
        id: "s".into(),
        kind: SessionKind::Claude,
        repo_key: None,
        cwd: "/wt".into(),
        claude_session_id: None,
        transcript_path: None,
        claude_binary: None,
        hidden: false,
        runtime_state: None,
        notification_type: None,
        turn_acknowledged: false,
    });
    let mut s = state(vec![ws]);
    let hide = commands::SetClaudeHiddenArgs {
        workspace_id: "w".into(),
        session_id: "s".into(),
        hidden: true,
    };
    assert!(commands::set_claude_session_hidden(&mut s, &hide).is_ok());
    assert!(s.workspaces[0].sessions[0].hidden);
    let notes = commands::SetWorkspaceNotesArgs { workspace_id: "w".into(), notes: "n".into() };
    assert!(commands::set_workspace_notes(&mut s, notes).is_ok());
    assert_eq!(s.workspaces[0].notes, "n");
    assert_eq!(commands::forget_workspace(&mut s, "w").ok().unwrap(), args(&["s"]));
    assert!(s.workspaces.is_empty());
}

#[test]
fn git_is_told_what_a_snapshot_needs() {
    let told = |a: &SnapshotAction| {
        git_args(&managed_docs::snapshot_steps(a, "/d", "ws/x", "/c"))
    };
    assert_eq!(told(&SnapshotAction::Stage), vec![args(&["-C", "/c", "add", "-A"])]);
    assert_eq!(
        told(&SnapshotAction::Compare { base: "b".into() }),
        vec![args(&["-C", "/d", "diff", "--quiet", "b", "ws/x"])]
    );
    assert!(told(&SnapshotAction::Adopt).is_empty());
    assert_eq!(
        git_args(&managed_docs::before_merge("/d", None)),
        vec![args(&["-C", "/d", "checkout", "main"])]
    );
    assert!(managed_docs::before_merge("/d", Some("main")).is_empty());
    assert_eq!(
        git_args(&[managed_docs::merge_step("/d", "ws/x")]),
        vec![args(&["-C", "/d", "merge", "ws/x", "-m", "merge ws/x"])]
    );
    assert_eq!(
        git_args(&[managed_docs::archive_step("/d", "ws/x", "archive/x")]),
        vec![args(&["-C", "/d", "branch", "-m", "ws/x", "archive/x"])]
    );
    let (files, abort) = managed_docs::after_conflict("/d");
    assert_eq!(
        git_args(&[files, abort]),
        vec![
            args(&["-C", "/d", "diff", "--name-only", "--diff-filter=U"]),
            args(&["-C", "/d", "merge", "--abort"]),
        ]
    );
    assert_eq!(managed_docs::managed_paths(), args(&["CONTEXT.md", "docs/adr"]));
}

#[test]
fn a_job_that_has_to_wait_says_so() {
    let mut queue = ProvisionQueue::new();
    let (silent, first) = queue.acquire_announcing();
    assert_eq!(silent, None);
    assert!(matches!(first, Admission::Now(_)));
    let (one, second) = queue.acquire_announcing();
    assert_eq!(one.as_deref(), Some("waiting for another workspace to finish setting up"));
    assert!(matches!(second, Admission::Later(_)));
    let (two, _) = queue.acquire_announcing();
    assert_eq!(two.as_deref(), Some("waiting for 2 workspaces ahead in the setup queue"));
}

fn asked_of_git(steps: &[Step]) -> Vec<String> {
    steps
        .iter()
        .map(|s| match s {
            Step::Git { args, .. } => args.join(" "),
            Step::RemoveEmptyDir { path } => format!("rmdir {path}"),
            _ => panic!("an unexpected step"),
        })
        .collect()
}

#[test]
fn the_docs_of_a_failed_workspace_go_with_their_branch() {
    let docs = DocsLink {
        branch: "api/feat".into(),
        checkout_path: "/data/docs/ws-1/api".into(),
        linked_paths: Vec::new(),
    };
    let steps = managed_docs::remove_checkout_and_branch("/data/docs/repo", &docs);
    assert_eq!(
        asked_of_git(&steps),
        [
            "-C /data/docs/repo worktree remove --force /data/docs/ws-1/api",
            "-C /data/docs/repo worktree prune",
            "rmdir /data/docs/ws-1",
            "-C /data/docs/repo branch -D api/feat",
        ]
    );
}

#[test]
fn a_worktree_removed_in_silence_reports_what_git_said() {
    let step = git::worktree_remove_silent("/clone", "/wt/a", false);
    match &step {
        Step::Git { failure: Failure::Report { what }, .. } => {
            assert_eq!(what, "git worktree remove /wt/a");
        }
        _ => panic!("its failure goes unreported"),
    }
    assert_eq!(asked_of_git(&[step]), ["-C /clone worktree remove /wt/a"]);
}

#[test]
fn the_files_of_the_application_have_their_names() {
    let p = paths();
    assert_eq!(p.repos_schema_file(), "/data/repos.schema.json");
    assert_eq!(p.theme_file(), "/data/theme.json");
    let name = agent();
    assert_eq!(
        p.claude_settings_lock(&name),
        format!("/data/{}-settings.lock", name.command())
    );
}

/// A run over two repos whose worktrees have landed.
fn landed() -> WorkspaceProvision {
    let mut run = WorkspaceProvision::start(2);
    provision::provision_workspace(&mut run, WorkspaceEvent::Slot(true));
    provision::provision_workspace(&mut run, WorkspaceEvent::Live(true));
    provision::provision_workspace(&mut run, WorkspaceEvent::Provisioned(link("a", true)));
    assert!(matches!(
        provision::provision_workspace(&mut run, WorkspaceEvent::Provisioned(link("b", true))),
        WorkspaceAction::MarkReady
    ));
    run
}

#[test]
fn a_workspace_that_is_built_is_ready() {
    let mut run = landed();
    let mut ws = workspace("w", vec![]);
    provision::store_links(&mut run, &mut ws);
    assert!(matches!(ws.status, WorkspaceStatus::Ready));
    assert_eq!(ws.repo_keys(), args(&["a", "b"]));
    assert!(matches!(
        provision::provision_workspace(&mut run, WorkspaceEvent::Done),
        WorkspaceAction::Finish(Ok(()), JobEvent::Success)
    ));
}

#[test]
fn a_workspace_that_cannot_be_stored_is_taken_back() {
    let mut run = landed();
    let gone = AppError::WorkspaceNotFound("w".into());
    match provision::provision_workspace(&mut run, WorkspaceEvent::Failed(gone)) {
        WorkspaceAction::TearDown(l) => assert_eq!(l.repo_key, "b"),
        other => panic!("{other:?}"),
    }
}

#[test]
fn only_a_directory_among_the_worktrees_is_removed() {
    let reg = registry(vec![]);
    assert_eq!(provision::partial_root(&reg, "feat", true, true).as_deref(), Some("/wt/feat"));
    assert_eq!(provision::partial_root(&reg, "feat", false, true), None);
    assert_eq!(provision::partial_root(&reg, "feat", true, false), None);
}

#[test]
fn a_job_ends_as_it_came_out() {
    assert!(matches!(last_event(&Ok(())), JobEvent::Success));
    let failed = Err(AppError::FolderNotFound("f".into()));
    assert!(matches!(
        last_event(&failed),
        JobEvent::Failed { error } if error == "folder not found: f"
    ));
}
