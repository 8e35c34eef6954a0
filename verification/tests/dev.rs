//! Dev servers, the environment of commands, and what runs at start.

use tethys::boot;
use tethys::child_env::{child_env_overrides, strip_pnp_from_node_options, EnvAction};
use tethys::codex_trust;
use tethys::codex_trust::{KeySearch, KeyStep, TrustAction};
use tethys::dev_orchestrator::config::OrchestratorConfig;
use tethys::dev_orchestrator::down;
use tethys::dev_orchestrator::down::DownOutcome;
use tethys::dev_orchestrator::env_files;
use tethys::dev_orchestrator::env_files::DotGit;
use tethys::dev_orchestrator::main_stack;
use tethys::dev_orchestrator::main_stack::{ComposeOutcome, MainStackStatus, Stage, StackStep};
use tethys::dev_orchestrator::ports::find_free_port_from;
use tethys::dev_orchestrator::pressure;
use tethys::dev_orchestrator::pressure::Pressure;
use tethys::dev_orchestrator::scrub;
use tethys::dev_orchestrator::scrub::Candidate;
use tethys::dev_orchestrator::stats::{parse_mem_usage, workspace_memory};
use tethys::dev_orchestrator::{
    label_from_branch, prep, prepared, restart_worktree_django, short_from_branch, short_with,
    stop, BeMode, PrepFacts,
};
use tethys::dev_servers;
use tethys::memory_poller;
use tethys::memwatch;
use tethys::memwatch::DEFAULT_INTERVAL_SECS;
use tethys::pr_view;
use tethys::pr_view::{LiveViews, MAX_LIVE};
use tethys::sessions::{spawn_with_id, SessionSupervisor};
use tethys::state::{AppState, Origin, RepoLink, SessionKind, Workspace};

#[test]
fn parses_docker_mem_units() {
    assert_eq!(parse_mem_usage("1.0GiB / 15.6GiB"), Some(1024));
    assert_eq!(parse_mem_usage("245.5MiB / 15.6GiB"), Some(246));
    assert_eq!(parse_mem_usage("512KiB / 15.6GiB"), Some(0));
    assert_eq!(parse_mem_usage("garbage"), None);
}

#[test]
fn sizes_are_rounded_to_the_nearest_mib() {
    assert_eq!(parse_mem_usage("1.192GiB / 15.6GiB"), Some(1221));
    assert_eq!(parse_mem_usage("513KiB"), Some(1));
    assert_eq!(parse_mem_usage("1048576B"), Some(1));
    assert_eq!(parse_mem_usage("524287.9B"), Some(0));
    assert_eq!(parse_mem_usage("0.4999MB / 1GB"), Some(0));
    assert_eq!(parse_mem_usage(".5MiB"), Some(0));
    assert_eq!(parse_mem_usage("1.5MiB"), Some(2));
    assert_eq!(parse_mem_usage(".51MiB"), Some(1));
    assert_eq!(parse_mem_usage("-3MiB"), Some(0));
    assert_eq!(parse_mem_usage("1.2.3MiB"), None);
    assert_eq!(parse_mem_usage("MiB"), None);
    assert_eq!(parse_mem_usage("3TiB"), None);
    assert_eq!(parse_mem_usage("99999999999999999999999999GiB"), Some(u64::MAX));
}

fn config() -> OrchestratorConfig {
    OrchestratorConfig::newlantern(Some("/h"))
}

#[test]
fn the_configuration_fills_in_its_templates() {
    let c = config();
    assert_eq!(c.main_stack_dir, "/h/newlantern/nl-backend");
    assert_eq!(c.compose_project("6457"), "nl-backend-6457");
    assert_eq!(c.be_container("6457"), "django-6457");
    assert_eq!(c.fe_command(3001), "yarn install && PORT=3001 yarn dev");
    assert_eq!(
        OrchestratorConfig::newlantern(None).worktree_root,
        "/Users/nathangugel/newlantern/tethys-newlantern"
    );
}

#[test]
fn a_branch_is_called_by_its_ticket() {
    assert_eq!(short_from_branch("nathan/nl-6457-foo"), "6457");
    assert_eq!(short_from_branch("nathan/NL-12"), "12");
    assert_eq!(label_from_branch("nathan/nl-6457-foo"), "NL-6457");
    assert_eq!(short_with("nl-x/nl-7", 0), "7");
    assert_eq!(short_with("plain", 0xabcdef01_23456789), "abcdef");
    assert_eq!(short_with("nl-", 5), "000000");
}

#[test]
fn a_branch_without_a_ticket_is_called_by_its_hash() {
    let a = short_from_branch("nathan/some-branch");
    assert_eq!(a, short_from_branch("nathan/some-branch"));
    assert_eq!(a.len(), 6);
    assert_ne!(a, "nathan/some-branch");
    assert_ne!(a, short_from_branch("nathan/other-branch"));
    let label = label_from_branch("nathan/a-very-long-branch-name-indeed");
    assert_eq!(label, "nathan/a-very-long-branc");
    assert_eq!(label_from_branch("nathan/short"), "nathan/short");
}

#[test]
fn the_first_free_port_is_taken() {
    assert_eq!(find_free_port_from(3000, |p: u16| p >= 3003), Some(3003));
    assert_eq!(find_free_port_from(3000, |_p: u16| false), None);
    assert_eq!(find_free_port_from(65_500, |p: u16| p == 65_535), Some(65_535));
    assert_eq!(find_free_port_from(65_535, |_p: u16| true), Some(65_535));
    assert_eq!(find_free_port_from(65_535, |_p: u16| false), None);
    assert_eq!(find_free_port_from(3000, |p: u16| p == 3199), Some(3199));
    assert_eq!(find_free_port_from(3000, |p: u16| p == 3200), None);
    assert_eq!(find_free_port_from(65_500, |p: u16| p == 65_534), Some(65_534));
}

#[test]
fn memory_is_read_from_the_system() {
    let vm = "Mach Virtual Memory Statistics: (page size of 4096 bytes)\nPages free: 1.\nAnonymous pages:   1,024.\nPages wired down: 512.\nPages occupied by compressor: 256.\n";
    let m = pressure::current(Some("2\n"), Some("16777216\n"), Some(vm));
    assert_eq!(m.level, Pressure::Warning);
    assert_eq!(m.total_mib, 16);
    assert_eq!(m.free_mib, 9);
    assert_eq!(m.free_pct, 56);
    let none = pressure::current(None, None, None);
    assert_eq!(none.level, Pressure::Unknown);
    assert_eq!((none.total_mib, none.free_mib, none.free_pct), (0, 0, 0));
    assert_eq!(pressure::current_level(Some("4")), Pressure::Critical);
    assert_eq!(pressure::current_level(Some("1")), Pressure::Normal);
    assert_eq!(Pressure::default(), Pressure::Normal);
    assert_eq!(pressure::current_level(Some("3")), Pressure::Unknown);
    assert_eq!(pressure::read_vm_stat_used("Anonymous pages: 64."), 1);
}

#[test]
fn memory_is_told_apart_by_workspace() {
    let docker = "{\"Name\":\"django-7\",\"MemUsage\":\"1.5GiB / 4GiB\"}\nnot json\n{\"Name\":\"other\",\"MemUsage\":\"9MiB\"}\n";
    let ps = "PID RSS COMMAND\n  12 204800 node rspack serve /wt/a/fe\n13 1024 vim /wt/a/fe\n";
    let asked = vec![
        ("w1".to_string(), "7".to_string(), "/wt/a/fe".to_string()),
        ("w2".to_string(), "8".to_string(), "/wt/b/fe".to_string()),
    ];
    let got = workspace_memory(&config(), &asked, Some(docker), Some(ps));
    assert_eq!((got[0].fe_mib, got[0].be_mib), (200, 1536));
    assert_eq!((got[1].fe_mib, got[1].be_mib), (0, 0));
    assert_eq!(got[1].workspace_id, "w2");
    let padded = "  101   2048 node rspack serve /w/fe\n";
    let shared = vec![
        ("w1".to_string(), "7".to_string(), "/w/fe".to_string()),
        ("w2".to_string(), "8".to_string(), "/w/fe".to_string()),
    ];
    let got = workspace_memory(&config(), &shared, None, Some(padded));
    assert_eq!((got[0].fe_mib, got[1].fe_mib), (2, 2));
}

fn link(key: &str) -> RepoLink {
    RepoLink {
        repo_key: key.into(),
        worktree_path: format!("/wt/{key}"),
        setup_script_ran_at: None,
        prs: Vec::new(),
        dismissed: Vec::new(),
        github: None,
        attached_prs: Vec::new(),
        created_branch: true,
        docs: None,
    }
}

fn workspace() -> Workspace {
    let mut ws = Workspace::draft("w".into(), "me/nl-7-x".into(), None, Origin::Ui, None, 0);
    ws.repo_links = vec![link("frontend"), link("backend")];
    ws
}

fn facts(be_changes: bool) -> PrepFacts {
    PrepFacts {
        main_stack: Ok(MainStackStatus { was_started: true, waited_ms: 5 }),
        be_changes,
        fe_port: Some(3000),
        be_port: Some(8001),
    }
}

#[test]
fn a_backend_is_started_where_the_branch_changes_it() {
    let p = prep(&config(), &workspace(), BeMode::Auto, facts(true)).ok().unwrap();
    assert_eq!(p.short, "7");
    assert_eq!(p.label, "NL-7");
    assert_eq!(p.fe.session_id, "tethys-fe-w");
    assert_eq!(p.be.as_ref().unwrap().session_id, "tethys-be-w");
    assert_eq!(p.fe_proxy_target, "http://localhost:8001");
    assert_eq!(p.fe.env, vec![("NL_PROXY_TARGET".into(), "http://localhost:8001".into())]);
    assert!(p.main_stack_was_started);
    let p = prep(&config(), &workspace(), BeMode::Auto, facts(false)).ok().unwrap();
    assert!(p.be.is_none());
    assert_eq!(p.fe_proxy_target, "http://localhost:8000");
    assert!(prep(&config(), &workspace(), BeMode::ForceInclude, facts(false)).ok().unwrap().be.is_some());
    assert!(prep(&config(), &workspace(), BeMode::ForceExclude, facts(true)).ok().unwrap().be.is_none());
    assert_eq!(BeMode::default(), BeMode::Auto);
}

#[test]
fn preparing_says_what_is_missing() {
    let mut ws = workspace();
    ws.repo_links.pop();
    assert_eq!(
        prep(&config(), &ws, BeMode::Auto, facts(true)).err().as_deref(),
        Some("workspace has no 'backend' repo linked")
    );
    assert_eq!(
        stop(&config(), &ws).err().as_deref(),
        Some("workspace has no 'backend' repo linked")
    );
    let mut f = facts(true);
    f.fe_port = None;
    assert_eq!(
        prep(&config(), &workspace(), BeMode::Auto, f).err().as_deref(),
        Some("no free FE port in [3000, +200)")
    );
    let mut f = facts(true);
    f.be_port = None;
    assert_eq!(
        prep(&config(), &workspace(), BeMode::Auto, f).err().as_deref(),
        Some("no free BE port in [8001, +200)")
    );
    let mut f = facts(true);
    f.main_stack = Err("down".into());
    let p = prep(&config(), &workspace(), BeMode::Auto, f).ok().unwrap();
    assert_eq!(p.warnings, vec!["main stack: down".to_string()]);
    let p = prepared(p, Some("no".into()), None).ok().unwrap();
    assert_eq!(p.warnings[1], "env file link: no");
    assert_eq!(
        prepared(p, None, Some("full".into())).err().as_deref(),
        Some("override file: full")
    );
    let s = stop(&config(), &workspace()).ok().unwrap();
    assert_eq!((s.short.as_str(), s.project.as_str()), ("7", "nl-backend-7"));
    assert_eq!(restart_worktree_django(&config(), "7"), "django-7");
}

#[test]
fn the_main_stack_is_started_once_more_on_a_conflict() {
    let c = config();
    assert!(matches!(
        main_stack::ensure_running(&c, true, false),
        StackStep::Done(MainStackStatus { was_started: false, waited_ms: 0 })
    ));
    match main_stack::ensure_running(&c, false, false) {
        StackStep::Failed(e) => assert_eq!(e, "main stack dir not found: /h/newlantern/nl-backend"),
        _ => panic!("went on without a directory"),
    }
    assert!(matches!(
        main_stack::ensure_running(&c, false, true),
        StackStep::Start(Stage::Starting { again: false })
    ));
    let conflict = || ComposeOutcome::Failed("name is already in use".into());
    match main_stack::after_start(&c, false, conflict()) {
        StackStep::RemoveAndStart(names, _) => {
            assert_eq!(names, vec!["django", "celery-worker", "celery-beat"])
        }
        _ => panic!("did not try again"),
    }
    assert!(matches!(main_stack::after_start(&c, true, conflict()), StackStep::Failed(_)));
    match main_stack::after_start(&c, false, main_stack::not_invoked("no docker")) {
        StackStep::Failed(e) => {
            assert_eq!(e, "docker compose up -d failed: docker invoke failed: no docker")
        }
        _ => panic!("docker was not there"),
    }
    assert!(matches!(
        main_stack::after_start(&c, false, ComposeOutcome::Success),
        StackStep::Wait(Stage::Waiting)
    ));
    assert!(matches!(main_stack::after_wait(500, false), StackStep::Wait(_)));
    assert!(matches!(
        main_stack::after_wait(500, true),
        StackStep::Done(MainStackStatus { was_started: true, waited_ms: 500 })
    ));
    assert!(matches!(main_stack::after_wait(60_000, true), StackStep::Failed(_)));
    assert!(main_stack::all_health_ports_bound(&c, &[6379, 5432]));
    assert!(!main_stack::all_health_ports_bound(&c, &[6379]));
}

#[test]
fn taking_servers_down_is_reported() {
    assert_eq!(down::fe_pattern("/wt/fe"), "rspack serve.*/wt/fe");
    assert_eq!(down::pgrep(Some("12\n x\n 13 \n")), vec![12, 13]);
    assert!(down::pgrep(None).is_empty());
    let r = down::stop_worktree(DownOutcome::Failed(" no \n".into()), &[(1, true), (2, false)], true);
    assert!(!r.compose_down_ran && r.override_removed);
    assert_eq!(r.killed_pids, vec![1]);
    assert_eq!(r.warnings, vec!["compose down: no".to_string()]);
    let r = down::stop_worktree(DownOutcome::NotRun("e".into()), &[], false);
    assert_eq!(r.warnings, vec!["docker invoke: e".to_string()]);
    assert!(down::stop_worktree(DownOutcome::Success, &[], false).compose_down_ran);
    assert!(down::keep_waiting(true, 2_999));
    assert!(!down::keep_waiting(true, 3_000) && !down::keep_waiting(false, 0));
}

#[test]
fn secrets_are_linked_and_ignored() {
    let c = config();
    assert_eq!(
        env_files::link_into_worktree(&c, "/wt/be", ".env", true, false),
        Some(("/h/newlantern/nl-backend/.env".into(), "/wt/be/.env".into()))
    );
    assert_eq!(env_files::link_into_worktree(&c, "/wt/be", ".env", true, true), None);
    assert_eq!(
        env_files::worktree_exclude_path("/wt/be", &DotGit::File("x\ngitdir: /g/worktrees/be \n".into()))
            .as_deref(),
        Some("/g/worktrees/be/info/exclude")
    );
    assert_eq!(
        env_files::worktree_exclude_path("/wt/be", &DotGit::Dir).as_deref(),
        Some("/wt/be/.git/info/exclude")
    );
    assert_eq!(env_files::worktree_exclude_path("/wt/be", &DotGit::Missing), None);
    let once = env_files::register_gitignore("a", &c).unwrap();
    assert_eq!(once, "a\ndocker-compose.override.yml\n.env\n");
    assert_eq!(env_files::register_gitignore(&once, &c), None);
}

#[test]
fn overrides_of_lost_worktrees_go() {
    let c = config();
    let mut it = Candidate {
        path: "/r/x".into(),
        is_dir: true,
        has_override: true,
        be_present: true,
        is_repository: false,
    };
    assert_eq!(
        scrub::scrub_orphan_overrides(&c, &it).as_deref(),
        Some("/r/x/backend/docker-compose.override.yml")
    );
    it.is_repository = true;
    assert_eq!(scrub::scrub_orphan_overrides(&c, &it), None);
}

#[test]
fn dev_servers_are_kept_and_forgotten() {
    let mut s = AppState { workspaces: vec![workspace()], system_errors: Vec::new() };
    assert!(dev_servers::check_start(&s, "", "w").is_err());
    assert_eq!(dev_servers::check_start(&s, "/bin/tmux", "w").ok(), Some(0));
    let p = prep(&config(), &workspace(), BeMode::Auto, facts(true)).ok().unwrap();
    for _ in 0..2 {
        let meta = dev_servers::start(&mut s, "w", &config(), &p, 9).ok().unwrap();
        assert_eq!(meta.be_port, Some(8001));
    }
    assert_eq!(s.workspaces[0].sessions.len(), 2);
    assert_eq!(s.workspaces[0].sessions[0].kind, SessionKind::FrontendBuild);
    let snap = dev_servers::snapshot(&s, &[], "w").ok().unwrap();
    assert!(!snap.fe.as_ref().unwrap().running);
    assert_eq!(snap.fe.unwrap().port, Some(3000));
    assert_eq!(snap.fe_proxy_target.as_deref(), Some("http://localhost:8001"));
    let mut sup = SessionSupervisor::new();
    for id in ["tethys-fe-w", "tethys-be-w"] {
        sup.insert(spawn_with_id(id.into(), "w".into(), None, "/wt".into(), false));
    }
    let ended = ["tethys-be-w".to_string()];
    let live = sup.list_for_workspace("w", &ended, &[]);
    let snap = dev_servers::snapshot(&s, &live, "w").ok().unwrap();
    assert!(snap.fe.unwrap().running);
    assert!(!snap.be.unwrap().running);
    assert_eq!(
        dev_servers::sessions_to_kill(&s.workspaces[0]),
        vec!["tethys-fe-w".to_string(), "tethys-be-w".to_string()]
    );
    assert_eq!(dev_servers::workspace_id_from_session("tethys-be-w"), "w");
    assert_eq!(dev_servers::workspace_id_from_session("other"), "other");
    assert_eq!(dev_servers::detect_be_changes(&s, "w", &config()).ok().unwrap(), "/wt/backend");
    assert!(dev_servers::stop(&mut s, "w").is_ok());
    assert!(s.workspaces[0].sessions.is_empty() && s.workspaces[0].dev_servers.is_none());
    assert!(dev_servers::stop(&mut s, "z").is_err());
    assert_eq!(memory_poller::polled(&s, &config())[0].1, "7");
}

#[test]
fn strips_yarn_pnp_context_from_child_env() {
    let env = vec![
        (
            "NODE_OPTIONS".to_string(),
            "--require /Users/ryan/code/tethys/.pnp.cjs --experimental-loader file:///Users/ryan/code/tethys/.pnp.loader.mjs".to_string(),
        ),
        ("BERRY_BIN_FOLDER".to_string(), "/tmp/xfs-abc".to_string()),
        ("npm_config_user_agent".to_string(), "yarn/4.11.0".to_string()),
        ("npm_execpath".to_string(), "/tmp/xfs-abc/yarn".to_string()),
        ("PROJECT_CWD".to_string(), "/Users/ryan/code/tethys".to_string()),
        ("INIT_CWD".to_string(), "/Users/ryan/code/tethys".to_string()),
        ("PATH".to_string(), "/usr/bin:/bin".to_string()),
        ("HOME".to_string(), "/Users/ryan".to_string()),
    ];
    let overrides = child_env_overrides(env);
    let action_for = |key: &str| overrides.iter().find(|(k, _)| k == key).map(|(_, a)| a);
    assert_eq!(action_for("NODE_OPTIONS"), Some(&EnvAction::Remove));
    assert_eq!(action_for("BERRY_BIN_FOLDER"), Some(&EnvAction::Remove));
    assert_eq!(action_for("npm_config_user_agent"), Some(&EnvAction::Remove));
    assert_eq!(action_for("npm_execpath"), Some(&EnvAction::Remove));
    assert_eq!(action_for("PROJECT_CWD"), Some(&EnvAction::Remove));
    assert_eq!(action_for("INIT_CWD"), Some(&EnvAction::Remove));
    assert_eq!(action_for("PATH"), None);
    assert_eq!(action_for("HOME"), None);
}

#[test]
fn options_that_stay_are_set_again() {
    let env = vec![("NODE_OPTIONS".to_string(), "-r /x/.pnp.cjs  --y".to_string())];
    assert_eq!(
        child_env_overrides(env),
        vec![("NODE_OPTIONS".to_string(), EnvAction::Assign("--y".into()))]
    );
    let env = vec![("NODE_OPTIONS".to_string(), "--y".to_string())];
    assert!(child_env_overrides(env).is_empty());
}

#[test]
fn drops_only_pnp_entries_keeping_user_node_options() {
    let input =
        "--max-old-space-size=4096 --require /Users/ryan/code/tethys/.pnp.cjs --enable-source-maps";
    assert_eq!(
        strip_pnp_from_node_options(input).as_deref(),
        Some("--max-old-space-size=4096 --enable-source-maps")
    );
}

#[test]
fn keeps_non_pnp_require() {
    let input = "--require /some/other/preload.js";
    assert_eq!(strip_pnp_from_node_options(input).as_deref(), Some(input));
}

#[test]
fn handles_equals_form() {
    let input = "--experimental-loader=file:///x/.pnp.loader.mjs --require=/x/.pnp.cjs";
    assert_eq!(strip_pnp_from_node_options(input), None);
}

#[test]
fn fully_pnp_node_options_is_removed() {
    let input = "--require /x/.pnp.cjs --experimental-loader file:///x/.pnp.loader.mjs";
    assert_eq!(strip_pnp_from_node_options(input), None);
}

const KEY: &str = "/private/tmp/ws";

fn trusted(existing: &str) -> String {
    codex_trust::trust("config.toml", existing, KEY).ok().unwrap().expect("a change")
}

fn untrusted(existing: &str) -> String {
    codex_trust::untrust("config.toml", existing, KEY).ok().unwrap().expect("a change")
}

#[test]
fn trusting_a_directory_writes_the_stanza() {
    let written = trusted("");
    assert!(written.contains(&format!("[projects.\"{KEY}\"]")));
    assert!(written.contains(r#"trust_level = "trusted""#));
}

#[test]
fn everything_else_in_the_file_survives() {
    let initial =
        "# my notes\nmodel = \"gpt-5.6-terra\"\n\n[tui]\nalternate_screen = \"never\"\n";
    let written = trusted(initial);
    assert!(written.contains("# my notes"));
    assert!(written.contains("model = \"gpt-5.6-terra\""));
    assert!(written.contains("[tui]"));
    assert!(written.contains("alternate_screen = \"never\""));
}

#[test]
fn trusting_twice_changes_nothing() {
    let once = trusted("");
    assert_eq!(codex_trust::trust("config.toml", &once, KEY).ok().unwrap(), None);
}

#[test]
fn untrusting_removes_the_stanza_and_its_empty_table() {
    let written = untrusted(&trusted("model = \"gpt-5.6-terra\"\n"));
    assert!(!written.contains("trust_level"));
    assert!(!written.contains("[projects]"));
    assert!(written.contains("model = \"gpt-5.6-terra\""));
}

#[test]
fn untrusting_leaves_other_projects_alone() {
    let initial = "[projects.\"/Users/ryan/code/elsewhere\"]\ntrust_level = \"trusted\"\n";
    let written = untrusted(&trusted(initial));
    assert!(written.contains("/Users/ryan/code/elsewhere"));
    assert!(!written.contains(KEY));
}

fn key_of(dir: &str, resolve: &dyn Fn(&str) -> Option<String>) -> String {
    let mut search = KeySearch::start(dir);
    loop {
        let resolved = resolve(&search.cursor);
        match search.project_key(resolved.as_deref()) {
            KeyStep::Key(k) => return k,
            KeyStep::Resolve(next) => search = next,
        }
    }
}

#[test]
fn untrusting_works_after_the_directory_is_deleted() {
    let gone = key_of("/tmp/ws", &|p| if p == "/tmp" { Some("/private/tmp".into()) } else { None });
    let written =
        codex_trust::untrust("config.toml", &trusted(""), &gone).ok().unwrap().expect("a change");
    assert!(!written.contains(KEY), "{written}");
}

#[test]
fn the_key_survives_the_directory() {
    let there = key_of("/tmp/ws", &|p| Some(format!("/private{p}")));
    let gone = key_of("/tmp/ws", &|p| if p == "/tmp" { Some("/private/tmp".into()) } else { None });
    assert_eq!(there, gone);
    assert_ne!(there, "/tmp/ws");
    assert_eq!(key_of("/tmp/ws", &|_| None), "/tmp/ws");
}

#[test]
fn a_broken_config_is_reported_not_overwritten() {
    let err = codex_trust::trust("config.toml", "this is [not valid toml\n", KEY);
    let err = err.err().unwrap().message();
    assert!(err.starts_with("config.toml is not valid TOML: "), "{err}");
    assert!(err.len() > "config.toml is not valid TOML: ".len());
}

#[test]
fn entries_that_are_no_tables_are_reported() {
    let other = |s: &str| codex_trust::trust("c", s, KEY).err().unwrap().message();
    assert_eq!(other("projects = 1\n"), "codex config `projects` is not a table");
    assert_eq!(
        other("[projects]\n\"/private/tmp/ws\" = 1\n"),
        "codex config `projects./private/tmp/ws` is not a table"
    );
    let inline = "[projects]\n\"/private/tmp/ws\" = { trust_level = \"untrusted\" }\n";
    assert!(trusted(inline).contains("\"trusted\""));
    assert_eq!(codex_trust::untrust("c", "a = 1\n", KEY).ok().unwrap(), None);
    assert!(matches!(codex_trust::trust_or_warn(None, KEY), TrustAction::Warn(_)));
    assert!(matches!(codex_trust::untrust_or_warn(None, KEY), TrustAction::Nothing));
    match codex_trust::trust_or_warn(Some(("c", "")), KEY) {
        TrustAction::Write { path, contents } => {
            assert_eq!(path, "c");
            assert!(contents.contains("trusted"));
        }
        _ => panic!("nothing to write"),
    }
    match codex_trust::untrust_or_warn(Some(("c", "[x")), KEY) {
        TrustAction::Warn(w) => assert!(w.starts_with("could not drop codex project trust: c is not")),
        _ => panic!("a broken file went through"),
    }
}

#[test]
fn off_disables_and_bad_values_fall_back() {
    for (value, expected) in [
        ("off", None),
        ("OFF", None),
        ("5", Some(5)),
        ("0", Some(DEFAULT_INTERVAL_SECS)),
        ("banana", Some(DEFAULT_INTERVAL_SECS)),
    ] {
        assert_eq!(memwatch::interval_from_env(Some(value)), expected, "for {value}");
    }
    assert_eq!(memwatch::interval_from_env(None), Some(DEFAULT_INTERVAL_SECS));
    assert_eq!(memwatch::script_path("/src/tauri"), "/src/tauri/../scripts/memwatch.sh");
}

#[test]
fn pages_are_kept_until_there_are_too_many() {
    let mut live = LiveViews::new();
    for i in 0..MAX_LIVE {
        let plan = live.show(&format!("v{i}"), false);
        assert!(plan.close.is_empty());
    }
    let plan = live.show("v0", true);
    assert_eq!(plan.hide.len(), MAX_LIVE - 1);
    assert!(plan.close.is_empty());
    let plan = live.show("new", false);
    assert_eq!(plan.close, vec!["v1".to_string()]);
    assert_eq!(live.labels.last().unwrap(), "new");
    assert_eq!(live.labels.len(), MAX_LIVE);
    assert_eq!(live.hide_all().len(), MAX_LIVE);
    let label = pr_view::label_for("https://github.com/a/b/pull/1");
    assert_eq!(label.len(), "pr-view-".len() + 16);
    assert_eq!(pr_view::label_with(255), "pr-view-00000000000000ff");
    assert_eq!(
        pr_view::bad_url("a\"b", "empty host").message(),
        "bad PR url \"a\\\"b\": empty host"
    );
}

#[test]
fn sessions_that_nobody_knows_are_killed() {
    let mut s = AppState { workspaces: vec![workspace()], system_errors: Vec::new() };
    let p = prep(&config(), &workspace(), BeMode::Auto, facts(false)).ok().unwrap();
    dev_servers::start(&mut s, "w", &config(), &p, 9).ok().unwrap();
    let names = vec!["tethys-fe-w".to_string(), "stranger".to_string()];
    assert_eq!(boot::reap_orphan_tmux_sessions(&s, &names), vec!["stranger".to_string()]);
    let warm = boot::prewarm_live_sessions(&s.workspaces[0], &names);
    assert_eq!(warm.len(), 1);
    assert_eq!(warm[0].workspace_id, "w");
    assert!(boot::refresh_workspace_docs(&s.workspaces[0]));
}

#[test]
fn what_stands_around_a_stanza_stays_in_its_order() {
    let initial = "# first\na = 1 # one\n\n# second\n[tui]\n\n  x = 2\n[other]\ny = 3\n";
    let written = trusted(initial);
    assert!(written.starts_with(initial), "{written}");
    assert_eq!(untrusted(&written), initial);
}
