//! Pull requests: references, statuses and polling.

use tethys::commands::attach_pr;
use tethys::error::AppError;
use tethys::github::attach::{attach_target, fetched_status, record, AttachTarget};
use tethys::github::client::{
    classify_failure, gh_login_status, graphql_args, graphql_data, run_graphql, GhError,
};
use tethys::github::poller::{
    backoff_for, collect_targets, dedup, follow_ups, status_target, AuthState, Discovery,
    GithubPoller, Target, TargetKind, AUTH_RETRY_INTERVAL, BASE_INTERVAL, FORCE_TICK_MIN_SPACING, MAX_BACKOFF,
};
use tethys::github::pr_ref::{parse_pr_reference, resolve_attach_target, AttachError, PrRef};
use tethys::github::status::{
    ChecksRollup, GithubPrStatus, GithubSlug, PrState, ReviewDecision,
};
use tethys::json::Json;
use tethys::registry::{Repo, RepoRegistry};
use tethys::state::{AppState, Origin, RepoLink, Workspace};

fn workspace() -> Workspace {
    let mut ws =
        Workspace::draft("ws-1".into(), "feat/thing".into(), None, Origin::Ui, None, 0);
    ws.repo_links.push(RepoLink {
        repo_key: "api".into(),
        worktree_path: "/tmp/ws-1/api".into(),
        setup_script_ran_at: None,
        prs: Vec::new(),
        dismissed: Vec::new(),
        github: None,
        attached_prs: Vec::new(),
        created_branch: true,
        docs: None,
    });
    ws
}

fn status(number: u32, head_branch: &str) -> GithubPrStatus {
    GithubPrStatus {
        pr_number: number,
        url: format!("https://github.com/me/api/pull/{number}"),
        state: PrState::Open,
        is_draft: false,
        checks: ChecksRollup::Absent,
        bugbot: ChecksRollup::Absent,
        has_merge_conflicts: false,
        review_decision: ReviewDecision::Absent,
        unresolved_threads: 0,
        head_branch: Some(head_branch.into()),
        stack: None,
        merge_queue: None,
        head_sha: "sha".into(),
        fetched_at: 0,
        last_error: None,
    }
}

#[test]
fn a_pr_on_the_workspace_branch_reports_as_the_branch_pr() {
    let mut ws = workspace();
    assert!(record(&mut ws, "api", status(7, "feat/thing")).ok().unwrap());
    let link = ws.link("api").unwrap();
    assert_eq!(link.prs.len(), 1);
    assert_eq!(link.prs[0].number, 7);
}

#[test]
fn a_pr_on_any_other_branch_is_tracked_the_same_way() {
    let mut ws = workspace();
    assert!(!record(&mut ws, "api", status(8, "feat/stacked")).ok().unwrap());
    let link = ws.link("api").unwrap();
    assert_eq!(link.prs.len(), 1);
    assert_eq!(link.prs[0].number, 8);
}

#[test]
fn re_linking_refreshes_rather_than_duplicating() {
    for branch in ["feat/thing", "feat/stacked"] {
        let mut ws = workspace();
        record(&mut ws, "api", status(7, branch)).ok().unwrap();
        let mut newer = status(7, branch);
        newer.checks = ChecksRollup::Failure;
        record(&mut ws, "api", newer).ok().unwrap();
        let link = ws.link("api").unwrap();
        assert_eq!(link.prs.len(), 1, "{branch}");
        assert_eq!(
            link.prs[0].status.as_ref().unwrap().checks,
            ChecksRollup::Failure,
            "{branch}",
        );
    }
}

#[test]
fn attaching_a_detached_pr_un_dismisses_it() {
    let mut ws = workspace();
    record(&mut ws, "api", status(7, "feat/thing")).ok().unwrap();
    let at = ws.link_index("api").unwrap();
    ws.repo_links[at].untrack(7);
    assert_eq!(ws.repo_links[at].dismissed, vec![7]);
    record(&mut ws, "api", status(7, "feat/thing")).ok().unwrap();
    let link = ws.link("api").unwrap();
    assert_eq!(link.prs.len(), 1);
    assert!(link.dismissed.is_empty());
}

#[test]
fn a_status_with_no_head_branch_is_not_the_branch_pr() {
    let mut ws = workspace();
    let mut s = status(9, "ignored");
    s.head_branch = None;
    assert!(!record(&mut ws, "api", s).ok().unwrap());
}

#[test]
fn a_repo_the_workspace_does_not_have_is_an_error() {
    let mut ws = workspace();
    let err = record(&mut ws, "web", status(1, "feat/thing")).err().unwrap().message();
    assert!(err.contains("no worktree for web"), "{err}");
}

#[test]
fn classify_not_authenticated() {
    let err = classify_failure("", "error: you are not logged in");
    assert!(matches!(err, GhError::NotAuthenticated));
}

#[test]
fn classify_rate_limit() {
    let err = classify_failure("", "API rate limit exceeded for user");
    assert!(matches!(err, GhError::RateLimited));
}

#[test]
fn classify_network() {
    let err = classify_failure("", "dial tcp: lookup api.github.com: no such host");
    assert!(matches!(err, GhError::Network(_)));
}

#[test]
fn classify_other_falls_through() {
    let err = classify_failure("", "something weird happened");
    assert!(matches!(err, GhError::Other(_)));
}

#[test]
fn failures_are_told_apart_in_any_case() {
    assert!(matches!(
        classify_failure("", "You Are NOT LOGGED IN to any hosts"),
        GhError::NotAuthenticated
    ));
    assert!(matches!(GhError::from_io(true, "x".into()), GhError::NotInstalled));
    assert!(matches!(GhError::from_io(false, "x".into()), GhError::Other(_)));
}

#[test]
fn a_query_carries_its_variables() {
    let args = graphql_args("query { x }", &[("a".to_string(), "1".to_string())]);
    assert_eq!(&args[..2], ["api".to_string(), "graphql".to_string()]);
    assert!(args.contains(&"query=query { x }".to_string()));
    assert!(args.contains(&"a=1".to_string()));
}

#[test]
fn an_answer_is_read_by_its_data_and_its_errors() {
    let data = run_graphql(true, r#"{"data":{"n":1}}"#, "").ok().expect("has data");
    assert!(matches!(data, Json::Object(_)));
    match run_graphql(true, r#"{"errors":[{"message":"a"},{"x":1}],"data":{}}"#, "") {
        Err(GhError::Graphql(m)) => assert_eq!(m[0], "a"),
        _ => panic!("errors went unseen"),
    }
    assert!(matches!(run_graphql(true, "{}", ""), Err(GhError::Other(_))));
    assert!(matches!(run_graphql(true, "nonsense", ""), Err(GhError::Other(_))));
    assert!(matches!(
        run_graphql(false, "", "API rate limit exceeded"),
        Err(GhError::RateLimited)
    ));
    assert!(graphql_data(Json::Null).is_err());
}

#[test]
fn the_login_is_what_gh_prints() {
    assert_eq!(gh_login_status(true, "octocat\n", "").ok().as_deref(), Some("octocat"));
    assert!(matches!(
        gh_login_status(false, "", "not logged in"),
        Err(GhError::NotAuthenticated)
    ));
}

#[test]
fn recovering_from_disabled_wakes_the_poll_loop() {
    let mut p = GithubPoller::new();
    p.handle_error(&GhError::NotInstalled);
    assert_eq!(p.auth_snapshot().state, AuthState::Disabled);
    assert!(p.is_parked());
    assert_eq!(p.next_delay(), u64::MAX as u128 * 1000);
    let (changed, wake) = p.probe_login(Ok("octocat".into()));
    assert!(changed && wake);
    assert_eq!(p.auth_snapshot().state, AuthState::Authenticated);
    assert_eq!(p.auth_snapshot().login.as_deref(), Some("octocat"));
    assert!(p.next_delay() < 120_000, "a recovered poller schedules a normal tick");
}

#[test]
fn auth_state_tracks_the_error_kind() {
    let mut p = GithubPoller::new();
    p.handle_error(&GhError::NotAuthenticated);
    assert_eq!(p.auth_snapshot().state, AuthState::NotAuthenticated);
    assert_eq!(p.next_delay(), AUTH_RETRY_INTERVAL as u128 * 1000);
    p.handle_error(&GhError::NotInstalled);
    assert_eq!(p.auth_snapshot().state, AuthState::Disabled);
}

#[test]
fn network_failures_accumulate_and_reset() {
    let mut p = GithubPoller::new();
    for _ in 0..3 {
        p.handle_error(&GhError::Network("boom".into()));
    }
    assert_eq!(p.consecutive_failures, 3);
    assert!(p.next_delay() > BASE_INTERVAL as u128 * 1000);
    p.tick_ok();
    assert_eq!(p.consecutive_failures, 0);
    assert!(p.next_delay() < (BASE_INTERVAL as u128 + 10) * 1000);
    assert!(p.next_delay() >= BASE_INTERVAL as u128 * 1000);
}

#[test]
fn the_jitter_spreads_ticks() {
    let p = GithubPoller::new();
    assert_eq!(p.delay_with(0), 45_000);
    assert_eq!(p.delay_with(1234), 46_234);
    let mut seen: Vec<u128> = (0..40).map(|_| p.next_delay()).collect();
    assert!(seen.iter().all(|d| (45_000..50_000).contains(d)));
    seen.sort_unstable();
    seen.dedup();
    assert!(seen.len() > 1, "forty draws of the same jitter");
}

#[test]
fn force_ticks_are_rate_limited() {
    let mut p = GithubPoller::new();
    assert!(p.request_tick(1_000));
    let first = p.last_forced_tick;
    assert!(first.is_some());
    assert!(!p.request_tick(1_000 + FORCE_TICK_MIN_SPACING - 1));
    assert_eq!(
        p.last_forced_tick, first,
        "a second request inside the spacing window is dropped"
    );
    assert!(p.request_tick(1_000 + FORCE_TICK_MIN_SPACING));
}

#[test]
fn no_registry_means_no_targets() {
    let state = AppState { workspaces: vec![workspace()], system_errors: Vec::new() };
    assert!(collect_targets(&state, None).is_empty());
}

#[test]
fn backoff_progression() {
    assert_eq!(backoff_for(0), BASE_INTERVAL);
    assert_eq!(backoff_for(1), 90);
    assert_eq!(backoff_for(2), 180);
    assert!(backoff_for(10) <= MAX_BACKOFF);
}

fn gs(owner: &str, name: &str) -> GithubSlug {
    GithubSlug { owner: owner.into(), name: name.into() }
}

fn repo(key: &str, slug: Option<GithubSlug>) -> Repo {
    Repo {
        key: key.into(),
        remote_url: String::new(),
        default_branch: None,
        default_setup_script: None,
        setup_timeout_secs: None,
        copy_files: Vec::new(),
        scripts: Vec::new(),
        managed_docs: true,
        github_slug: slug,
    }
}

fn registry() -> RepoRegistry {
    RepoRegistry {
        worktree_root: "/wt".into(),
        repos: vec![repo("api", Some(gs("me", "api"))), repo("docs", None)],
    }
}

#[test]
fn a_discovered_pr_is_followed_up_once() {
    let mut ws = workspace();
    record(&mut ws, "api", status(3, "x")).ok().unwrap();
    let state = AppState { workspaces: vec![ws], system_errors: Vec::new() };
    let targets = collect_targets(&state, Some(&registry()));
    assert!(targets.iter().any(|t| matches!(&t.kind, TargetKind::Branch(b) if b == "feat/thing")));
    assert!(targets.iter().any(|t| matches!(t.kind, TargetKind::Pr(3))));
    let found = vec![
        Discovery { workspace_id: "ws-1".into(), repo_key: "api".into(), number: 7 },
        Discovery { workspace_id: "ws-1".into(), repo_key: "gone".into(), number: 8 },
    ];
    let next: Vec<Target> = follow_ups(&found, &targets);
    assert_eq!(next.len(), 1);
    assert!(matches!(next[0].kind, TargetKind::Pr(7)));
    assert_eq!(next[0].slug, gs("me", "api"));
    assert_eq!(dedup(&found), vec!["ws-1".to_string()]);
}

#[test]
fn a_reference_is_resolved_against_the_workspace() {
    let state = AppState { workspaces: vec![workspace()], system_errors: Vec::new() };
    let t = attach_target(&state, &registry(), "ws-1", None, "#12").ok().unwrap();
    assert_eq!((t.repo_key.as_str(), t.number), ("api", 12));
    assert!(matches!(
        attach_target(&state, &registry(), "nope", None, "#12"),
        Err(AppError::WorkspaceNotFound(_))
    ));
    assert!(attach_target(&state, &registry(), "ws-1", None, "what").is_err());
    let target = AttachTarget { repo_key: "api".into(), slug: gs("me", "api"), number: 12 };
    assert_eq!(
        fetched_status(&target, Ok(None)).err().unwrap().message(),
        "me/api has no PR #12"
    );
    assert_eq!(
        fetched_status(&target, Err(GhError::Other("no".into()))).err().unwrap().message(),
        format!("couldn't fetch PR #12 from me/api: {}", GhError::Other("no".into()).message())
    );
    assert_eq!(fetched_status(&target, Ok(Some(status(12, "b")))).ok().unwrap().pr_number, 12);
}

fn candidates(pairs: &[(&str, &str, &str)]) -> Vec<(String, GithubSlug)> {
    pairs.iter().map(|(key, owner, name)| (key.to_string(), gs(owner, name))).collect()
}

fn bare(number: u32) -> PrRef {
    PrRef { slug: None, number }
}

fn qualified(owner: &str, name: &str, number: u32) -> PrRef {
    PrRef { slug: Some(gs(owner, name)), number }
}

#[test]
fn a_bare_number_resolves_when_there_is_only_one_repo() {
    let c = candidates(&[("api", "me", "api")]);
    let (key, s) = resolve_attach_target(&c, None, &bare(12)).unwrap();
    assert_eq!(key, "api");
    assert_eq!(s, gs("me", "api"));
}

#[test]
fn a_bare_number_is_ambiguous_with_two_repos() {
    let c = candidates(&[("api", "me", "api"), ("web", "me", "web")]);
    assert_eq!(resolve_attach_target(&c, None, &bare(12)), Err(AttachError::Ambiguous));
}

#[test]
fn a_bare_number_with_no_github_repos_says_so() {
    assert_eq!(resolve_attach_target(&[], None, &bare(12)), Err(AttachError::NoGithubRepos));
}

#[test]
fn a_pasted_url_picks_its_own_repo_out_of_several() {
    let c = candidates(&[("api", "me", "api"), ("web", "me", "web")]);
    let (key, _) = resolve_attach_target(&c, None, &qualified("me", "web", 3)).unwrap();
    assert_eq!(key, "web");
}

#[test]
fn a_pasted_url_for_a_repo_outside_the_workspace_is_rejected() {
    let c = candidates(&[("api", "me", "api")]);
    assert_eq!(
        resolve_attach_target(&c, None, &qualified("other", "thing", 3)),
        Err(AttachError::NoRepoForSlug { slug: gs("other", "thing") })
    );
}

#[test]
fn an_explicit_repo_key_wins_for_a_bare_number() {
    let c = candidates(&[("api", "me", "api"), ("web", "me", "web")]);
    let (key, _) = resolve_attach_target(&c, Some("web"), &bare(9)).unwrap();
    assert_eq!(key, "web");
}

#[test]
fn an_explicit_repo_key_that_is_not_github_linked_is_rejected() {
    let c = candidates(&[("api", "me", "api")]);
    assert_eq!(
        resolve_attach_target(&c, Some("docs"), &bare(9)),
        Err(AttachError::NotAGithubRepo { repo_key: "docs".into() })
    );
}

#[test]
fn an_explicit_repo_disagreeing_with_the_pasted_url_is_reported() {
    let c = candidates(&[("api", "me", "api"), ("web", "me", "web")]);
    let err = resolve_attach_target(&c, Some("api"), &qualified("me", "web", 42)).unwrap_err();
    assert_eq!(
        err,
        AttachError::SlugMismatch {
            number: 42,
            pasted: gs("me", "web"),
            repo_key: "api".into(),
            configured: gs("me", "api"),
        }
    );
    let msg = err.message();
    assert!(msg.contains("#42") && msg.contains("me/web") && msg.contains("me/api"), "{msg}");
}

#[test]
fn every_failure_mode_has_a_message() {
    for err in [
        AttachError::NotAGithubRepo { repo_key: "x".into() },
        AttachError::NoRepoForSlug { slug: gs("a", "b") },
        AttachError::NoGithubRepos,
        AttachError::Ambiguous,
    ] {
        assert!(!err.message().is_empty(), "{err:?}");
    }
}

fn slug(owner: &str, name: &str) -> Option<GithubSlug> {
    Some(gs(owner, name))
}

#[test]
fn parses_bare_number() {
    let r = parse_pr_reference("123").expect("parse");
    assert_eq!(r.number, 123);
    assert_eq!(r.slug, None);
}

#[test]
fn parses_hash_number() {
    let r = parse_pr_reference("  #42 ").expect("parse");
    assert_eq!(r.number, 42);
    assert_eq!(r.slug, None);
}

#[test]
fn parses_owner_repo_hash_number() {
    let r = parse_pr_reference("rynobax/tethys#7").expect("parse");
    assert_eq!(r.number, 7);
    assert_eq!(r.slug, slug("rynobax", "tethys"));
}

#[test]
fn parses_pr_url() {
    let r = parse_pr_reference("https://github.com/rynobax/tethys/pull/99").expect("parse");
    assert_eq!(r.number, 99);
    assert_eq!(r.slug, slug("rynobax", "tethys"));
}

#[test]
fn parses_pr_url_with_trailing_path_and_fragment() {
    let r = parse_pr_reference("https://github.com/rynobax/tethys/pull/99/files#diff-abc")
        .expect("parse");
    assert_eq!(r.number, 99);
    assert_eq!(r.slug, slug("rynobax", "tethys"));
}

#[test]
fn parses_pr_url_with_query_string() {
    let r = parse_pr_reference("https://github.com/rynobax/tethys/pull/12?w=1").expect("parse");
    assert_eq!(r.number, 12);
}

#[test]
fn parses_host_relative_path() {
    let r = parse_pr_reference("rynobax/tethys/pull/3").expect("parse");
    assert_eq!(r.number, 3);
    assert_eq!(r.slug, slug("rynobax", "tethys"));
}

#[test]
fn rejects_non_github_host() {
    assert!(parse_pr_reference("https://gitlab.com/rynobax/tethys/pull/1").is_none());
}

#[test]
fn rejects_issue_url() {
    assert!(parse_pr_reference("https://github.com/rynobax/tethys/issues/4").is_none());
}

#[test]
fn rejects_garbage() {
    assert!(parse_pr_reference("").is_none());
    assert!(parse_pr_reference("not a pr").is_none());
    assert!(parse_pr_reference("#0").is_none());
    assert!(parse_pr_reference("#abc").is_none());
}

#[test]
fn a_pull_request_is_attached_beside_the_branch_once() {
    let mut ws = workspace();
    ws.repo_links[0].github = Some(status(3, "feat/thing"));
    assert!(attach_pr(&mut ws, "api", 7, status(7, "other"), 12).is_ok());
    let at = &ws.link("api").unwrap().attached_prs;
    assert_eq!((at.len(), at[0].number, at[0].attached_at), (1, 7, 12));
    assert_eq!(at[0].status.as_ref().unwrap().pr_number, 7);
    let why = |ws: &mut Workspace, key: &str, n: u32| {
        attach_pr(ws, key, n, status(n, "x"), 13).err().unwrap().message()
    };
    assert_eq!(why(&mut ws, "api", 7), "PR #7 is already attached to api");
    assert_eq!(
        why(&mut ws, "api", 3),
        "PR #3 is already tracked as this workspace's branch PR"
    );
    assert_eq!(why(&mut ws, "web", 8), "workspace has no worktree for web");
    assert_eq!(ws.link("api").unwrap().attached_prs.len(), 1);
}

#[test]
fn one_pull_request_is_asked_for_by_its_number() {
    let slug = GithubSlug { owner: "me".into(), name: "api".into() };
    let t = status_target(&slug, 7);
    assert_eq!((t.slug.owner.as_str(), t.slug.name.as_str()), ("me", "api"));
    assert!(matches!(t.kind, TargetKind::Pr(7)));
}

#[test]
fn an_address_reads_back_whatever_follows_it() {
    for start in ["", "github.com/", "https://github.com/"] {
        for tail in ["", "/files", "?w=1", "#diff-2", "?to=https://github.com/a/b/pull/9", "/x#a@b"] {
            let r = parse_pr_reference(&format!(" {start}me/next.js/pull/12{tail}\n")).expect("parse");
            assert_eq!((r.slug, r.number), (slug("me", "next.js"), 12), "{start} {tail}");
        }
    }
    let pasted = parse_pr_reference("see/https://github.com/me/api/pull/3").expect("parse");
    assert_eq!((pasted.slug, pasted.number), (slug("me", "api"), 3));
    assert!(parse_pr_reference("github.com/me/api/pull/12/x://y").is_none());
    assert_eq!(parse_pr_reference("me/next.js#12").unwrap().slug, slug("me", "next.js"));
    assert!(parse_pr_reference("me/api/pull/4294967296").is_none());
}

#[test]
fn a_found_pull_request_is_taken_up_once_and_not_against_ones_wish() {
    let mut ws = workspace();
    let link = &mut ws.repo_links[0];
    assert!(link.discover(7));
    assert!(!link.discover(7));
    assert_eq!(link.prs.len(), 1);
    assert!(link.prs[0].status.is_none());
    link.untrack(7);
    assert!(!link.discover(7));
    assert!(link.prs.is_empty());
}
