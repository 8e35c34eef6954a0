//! Permissions and sandboxes in the settings files of agents.

use tethys::claude_local;
use tethys::agent::{Agent, AgentName};
use tethys::claude_local::SymlinkStep;
use tethys::claude_settings::PermissionCategory::{Allow, Ask, Deny};
use tethys::claude_settings::{PermissionEntry, SettingsDoc};
use tethys::json::Json;
use tethys::paths::{claude_settings_path, tethys_hook_bin, Paths};
use tethys::pending_permissions;
use tethys::pending_permissions::{PendingPermission, PendingPermissionsFile};

fn keys(v: &[&str]) -> Vec<String> {
    v.iter().map(|s| s.to_string()).collect()
}

const CORPUS: &[&str] = &[
    "Read(./src/**)",
    "Bash(yarn test:*)",
    "Bash(rm -rf /tmp/x)",
    "WebFetch(domain:github.com)",
    "Read(//Users/ryan/x/**)",
    "Read(~/Downloads/**)",
    "mcp__linear__get_issue",
    "Skill(see-data)",
    "Read()",
    "Edit(./a/b/c.ts)",
    "NoParens",
];

#[test]
fn parsing_round_trips_every_entry_shape() {
    for raw in CORPUS {
        assert_eq!(PermissionEntry::parse(raw).to_text(), *raw, "{raw}");
    }
}

#[test]
fn scoping_to_a_repo_and_back_is_the_identity() {
    let repos = keys(&["frontend", "api"]);
    for raw in CORPUS {
        let entry = PermissionEntry::parse(raw);
        let scoped = entry.scoped_to_repo("frontend");
        match scoped.unscope(&repos) {
            Some((key, back)) => {
                assert_eq!(key, "frontend", "{raw}");
                assert_eq!(back, entry, "{raw}");
            }
            None => assert_eq!(
                scoped, entry,
                "{raw}: an entry with no ./ path must be left alone"
            ),
        }
    }
}

#[test]
fn only_dot_slash_arguments_are_scoped() {
    let scope = |s: &str| PermissionEntry::parse(s).scoped_to_repo("frontend").to_text();
    assert_eq!(scope("Read(./src/**)"), "Read(./frontend/src/**)");
    assert_eq!(scope("Bash(yarn test:*)"), "Bash(yarn test:*)");
    assert_eq!(scope("WebFetch(domain:github.com)"), "WebFetch(domain:github.com)");
    assert_eq!(scope("Read(//Users/ryan/x/**)"), "Read(//Users/ryan/x/**)");
    assert_eq!(scope("Read(~/Downloads/**)"), "Read(~/Downloads/**)");
    assert_eq!(scope("mcp__linear__get_issue"), "mcp__linear__get_issue");
    assert_eq!(scope("Skill(see-data)"), "Skill(see-data)");
}

#[test]
fn unscope_recognizes_only_a_known_repo_prefix() {
    let repos = keys(&["api", "frontend"]);
    let un = |s: &str| PermissionEntry::parse(s).unscope(&repos);

    let (key, stripped) = un("Read(./api/src/foo.ts)").expect("matches");
    assert_eq!(key, "api");
    assert_eq!(stripped.to_text(), "Read(./src/foo.ts)");

    assert!(un("Read(./other/src/foo.ts)").is_none());
    assert!(un("Bash(rg:*)").is_none());
    assert!(un("mcp__linear__get_issue").is_none());
    assert!(un("Read(/abs/path)").is_none());
}

#[test]
fn permissions_reads_each_category() {
    let mut doc = SettingsDoc::new();
    doc.add_permission(Allow, &PermissionEntry::parse("Read(./a)"));
    doc.add_permission(Deny, &PermissionEntry::parse("Bash(rm:*)"));

    assert_eq!(
        doc.permissions(Allow).iter().map(|e| e.to_text()).collect::<Vec<_>>(),
        vec!["Read(./a)"]
    );
    assert_eq!(
        doc.permissions(Deny).iter().map(|e| e.to_text()).collect::<Vec<_>>(),
        vec!["Bash(rm:*)"]
    );
    assert!(doc.permissions(Ask).is_empty());
}

#[test]
fn add_permission_dedupes_and_reports_whether_it_changed() {
    let mut doc = SettingsDoc::new();
    let entry = PermissionEntry::parse("Read(./a)");
    assert!(doc.add_permission(Allow, &entry));
    assert!(!doc.add_permission(Allow, &entry));
    assert_eq!(doc.permissions(Allow).len(), 1);
}

fn written(doc: SettingsDoc) -> serde_json::Value {
    let text = doc.render().ok().expect("renders");
    serde_json::from_str(&text).expect("is JSON")
}

fn strings(v: &serde_json::Value) -> Vec<String> {
    v.as_array()
        .expect("an array")
        .iter()
        .map(|s| s.as_str().expect("a string").to_string())
        .collect()
}

#[test]
fn allow_write_dedupes_and_preserves_siblings() {
    let mut doc = SettingsDoc::new();
    let allow = Json::Array(vec![Json::Str("example.com".into())]);
    let network = Json::Object(vec![("allow".into(), allow)]);
    doc.set("sandbox", Json::Object(vec![("network".into(), network)]));
    let git_dir = "/data/repos/api/.git";
    doc.allow_write(git_dir);
    doc.allow_write(git_dir);

    let json = written(doc);
    assert_eq!(
        strings(&json["sandbox"]["filesystem"]["allowWrite"]),
        vec!["/data/repos/api/.git"]
    );
    assert_eq!(
        strings(&json["sandbox"]["network"]["allow"]),
        vec!["example.com"],
        "sibling sandbox config survives"
    );
}

#[test]
fn revoke_write_removes_only_the_named_grant() {
    let mut doc = SettingsDoc::new();
    doc.allow_write("/data/repos");
    doc.allow_write("/data/repos/api/.git");
    doc.revoke_write("/data/repos");

    let json = written(doc);
    assert_eq!(
        strings(&json["sandbox"]["filesystem"]["allowWrite"]),
        vec!["/data/repos/api/.git"]
    );
}

#[test]
fn unknown_keys_survive_a_round_trip() {
    let mut doc = SettingsDoc::read(Some(
        r#"{"model":"opus","env":{"FOO":"bar"},"limits":[1.5,-2],"permissions":{"allow":["Read(./a)"]}}"#,
    ));
    doc.add_permission(Allow, &PermissionEntry::parse("Read(./b)"));
    let back = written(doc);
    assert_eq!(back["model"], "opus");
    assert_eq!(back["env"]["FOO"], "bar");
    assert_eq!(back["limits"][0], 1.5);
    assert_eq!(back["limits"][1], -2);
    assert_eq!(strings(&back["permissions"]["allow"]), vec!["Read(./a)", "Read(./b)"]);
}

#[test]
fn a_missing_file_reads_as_empty() {
    assert!(SettingsDoc::read(None).is_empty());
}

#[test]
fn a_malformed_file_reads_as_empty() {
    assert!(SettingsDoc::read(Some("{ not json")).is_empty());
    assert!(SettingsDoc::read(Some("[1,2,3]")).is_empty());
}

#[test]
fn a_settings_file_ends_its_last_line() {
    let mut doc = SettingsDoc::new();
    doc.add_permission(Allow, &PermissionEntry::parse("Read(./a)"));
    let text = doc.render().ok().unwrap();
    assert_eq!(text, "{\n  \"permissions\": {\n    \"allow\": [\n      \"Read(./a)\"\n    ]\n  }\n}\n");
}

fn paths() -> Paths {
    Paths { data_dir: "/data".into() }
}

#[test]
fn merges_dedupes_and_writes() {
    let frontend = SettingsDoc::read(Some(
        r#"{"permissions":{"allow":["Bash(grep:*)","Read(./src/**)"],"deny":["Bash(rm:*)"]}}"#,
    ));
    let backend = SettingsDoc::read(Some(
        r#"{"permissions":{"allow":["Bash(grep:*)","Bash(pytest:*)"]}}"#,
    ));
    let doc = claude_local::write_workspace_root_settings(
        &keys(&["frontend", "backend"]),
        &[frontend, backend],
        &paths(),
    );
    let parsed = written(doc);
    assert_eq!(
        strings(&parsed["permissions"]["allow"]),
        vec!["Bash(grep:*)", "Read(./frontend/src/**)", "Bash(pytest:*)"],
        "dedupes Bash(grep:*) across repos and rewrites ./ paths"
    );
    assert_eq!(strings(&parsed["permissions"]["deny"]), vec!["Bash(rm:*)"]);
    assert!(!parsed["_seededBy"].as_str().unwrap_or("").is_empty());
    assert_eq!(
        strings(&parsed["sandbox"]["filesystem"]["allowWrite"]),
        vec![paths().repo_git_dir("frontend"), paths().repo_git_dir("backend")],
        "each repo's clone .git dir is granted — not the source-bearing repos dir"
    );
}

#[test]
fn missing_per_repo_files_are_skipped() {
    let doc = claude_local::write_workspace_root_settings(
        &keys(&["never-symlinked"]),
        &[SettingsDoc::read(None)],
        &paths(),
    );
    let parsed = written(doc);
    assert!(parsed.get("permissions").is_none());
    assert_eq!(
        strings(&parsed["sandbox"]["filesystem"]["allowWrite"]),
        vec![paths().repo_git_dir("never-symlinked")]
    );
}

/// The name of the default agent.
fn agent() -> AgentName {
    AgentName { title: format!("{:?}", Agent::Claude) }
}

#[test]
fn install_symlink_seeds_sandbox_git_dir_grant() {
    let mut shared = SettingsDoc::read(None);
    claude_local::seed_shared(&mut shared, "backend", &paths());
    let parsed = written(shared);
    assert_eq!(
        strings(&parsed["sandbox"]["filesystem"]["allowWrite"]),
        vec![paths().repo_git_dir("backend")]
    );
    match claude_local::install_symlink("/wt", &paths(), "backend", &agent(), false) {
        SymlinkStep::Link { target, link, .. } => {
            assert_eq!(link, format!("/wt/.{}/settings.local.json", agent().command()));
            assert_eq!(target, paths().repo_shared_claude_local("backend"));
        }
        SymlinkStep::Leave { .. } => panic!("nothing is in the way"),
    }
}

#[test]
fn install_symlink_retires_old_repos_dir_grant() {
    let mut shared = SettingsDoc::new();
    shared.allow_write(&paths().repos_clone_dir());
    claude_local::seed_shared(&mut shared, "backend", &paths());
    let parsed = written(shared);
    assert_eq!(
        strings(&parsed["sandbox"]["filesystem"]["allowWrite"]),
        vec![paths().repo_git_dir("backend")],
        "the broad repos-dir grant is replaced by the scoped .git grant"
    );
}

#[test]
fn an_occupied_place_is_left() {
    assert!(matches!(
        claude_local::install_symlink("/wt", &paths(), "backend", &agent(), true),
        SymlinkStep::Leave { .. }
    ));
}

#[test]
fn grants_of_a_purged_workspace_are_parked_once() {
    let repos = keys(&["api"]);
    let per_repo = SettingsDoc::read(Some(r#"{"permissions":{"allow":["Read(./src)"]}}"#));
    let combined = SettingsDoc::read(Some(
        r#"{"permissions":{"allow":["Read(./api/src)","Read(./api/new)","Bash(x)"]}}"#,
    ));
    let new = pending_permissions::capture_for_purge(
        "ws",
        "feat",
        &repos,
        &[per_repo],
        &combined,
        5,
    );
    let raw: Vec<&str> = new.iter().map(|p| p.raw_entry.as_str()).collect();
    assert_eq!(raw, vec!["Read(./api/new)", "Bash(x)"]);
    assert_eq!(new[0].suggested_repo_key.as_deref(), Some("api"));
    assert_eq!(new[0].stripped_entry.as_deref(), Some("Read(./new)"));
    assert_eq!(new[1].suggested_repo_key, None);
    assert_eq!(new[0].captured_at, 5);

    let mut file = PendingPermissionsFile { entries: Vec::new() };
    let id = new[0].id.clone();
    assert!(pending_permissions::park(&mut file, new));
    let mut doc = SettingsDoc::new();
    let at = pending_permissions::find_pending(&file, &id).ok().unwrap();
    assert!(pending_permissions::write_into_per_repo_file(&mut doc, &file.entries[at], "api"));
    assert_eq!(doc.permissions(Allow)[0].to_text(), "Read(./new)");
    assert!(pending_permissions::apply_pending(&mut file, &id).is_ok());
    assert_eq!(file.entries.len(), 1);
    assert!(pending_permissions::apply_pending(&mut file, &id).is_err());
    let other: &PendingPermission = &file.entries[0];
    let other = other.id.clone();
    assert!(pending_permissions::dismiss_pending(&mut file, &other).is_ok());
    assert!(pending_permissions::dismiss_pending(&mut file, "nope").is_err());
}

#[test]
fn a_rendered_document_reads_back() {
    let mut doc = SettingsDoc::new();
    doc.set("model", Json::Str("opus \"x\"\n".into()));
    doc.add_permission(Allow, &PermissionEntry::parse("Read(./a/**)"));
    let text = doc.render().ok().expect("renders");
    assert!(text.ends_with("}\n"));
    let again = SettingsDoc::read(Some(&text));
    assert_eq!(again.permissions(Allow)[0].to_text(), "Read(./a/**)");
    assert_eq!(again.render().ok().expect("renders"), text);
}

#[test]
fn the_settings_of_a_home_and_the_hook_beside_the_program() {
    let name = AgentName { title: format!("{:?}", Agent::Claude) };
    let wanted = format!("/home/me/.{}/settings.json", name.command());
    assert_eq!(claude_settings_path(Some("/home/me"), &name), Some(wanted));
    assert_eq!(claude_settings_path(None, &name), None);
    assert_eq!(tethys_hook_bin("/opt/tethys/tethys").as_deref(), Some("/opt/tethys/tethys-hook"));
    assert_eq!(tethys_hook_bin("/"), None);
}
