//! Diagrams and pages that agents make.

use tethys::artifacts::{
    diagram_label, dismiss, extract_diagrams, page_label, page_written, prune_missing_pages,
    record_diagrams, record_page, upsert, Artifact, ArtifactKind, ToolCall, CAP_PER_WORKSPACE,
    LABEL_MAX_CHARS,
};

const SCREENSHOT: &str = r#"**Today.** Every clip is its own round trip to the original recording.

```mermaid
flowchart LR
    A[audio.raw] --> B[prod_ingest]
```

The bottleneck is the red box.

**Proposed.** Build the parquet with `--inline-audio`.

```mermaid
flowchart LR
    A[audio.raw] --> F[parquet]
```
"#;

#[test]
fn extracts_every_fence_with_the_bold_lead_in_as_label() {
    let got = extract_diagrams(SCREENSHOT);
    assert_eq!(got.len(), 2);
    assert_eq!(got[0].0, "Today");
    assert!(got[0].1.starts_with("flowchart LR\n"));
    assert_eq!(got[1].0, "Proposed");
}

#[test]
fn ignores_other_fences_and_matches_the_fence_style() {
    let msg = "```rust\nfn x() {}\n```\n~~~mermaid\npie\n  \"a\" : 1\n~~~\n```\nplain\n```";
    let got = extract_diagrams(msg);
    assert_eq!(got.len(), 1);
    assert_eq!(got[0].1, "pie\n  \"a\" : 1");
}

#[test]
fn dedents_a_fence_inside_a_list_item() {
    let msg = "- item\n\n  ```mermaid\n  graph TD\n    A --> B\n  ```\n";
    let got = extract_diagrams(msg);
    assert_eq!(got[0].1, "graph TD\n  A --> B");
}

#[test]
fn an_unterminated_fence_runs_to_the_end() {
    let msg = "```mermaid\nflowchart TD\n  A --> B";
    let got = extract_diagrams(msg);
    assert_eq!(got.len(), 1);
    assert_eq!(got[0].1, "flowchart TD\n  A --> B");
}

fn label(source: &str, above: &[&str]) -> String {
    let above: Vec<String> = above.iter().map(|s| s.to_string()).collect();
    diagram_label(source, &above)
}

#[test]
fn label_prefers_title_then_heading_then_keyword() {
    let titled = "---\ntitle: Loader path\n---\nflowchart LR\n A-->B";
    assert_eq!(label(titled, &["**Today.**"]), "Loader path");
    let gantt = "gantt\n    title Release plan\n    section A";
    assert_eq!(label(gantt, &[]), "Release plan");
    assert_eq!(label("flowchart LR\n A-->B", &["## Data flow", ""]), "Data flow");
    assert_eq!(
        label(
            "sequenceDiagram\n A->>B: hi",
            &["Some long paragraph of prose that is far too long to be a title for anything."]
        ),
        "sequenceDiagram"
    );
    assert_eq!(
        label("flowchart LR\n A-->B", &["A ridiculously long heading line"]),
        "A ridiculously lo…"
    );
}

#[test]
fn a_diagram_that_says_nothing_is_called_one() {
    assert_eq!(label("%% only a comment\n", &[]), "diagram");
    assert_eq!(extract_diagrams("```mermaid\n\n   \n```\n").len(), 0);
    assert_eq!(extract_diagrams("````MERMAID x\npie\n```\n````").len(), 1);
    assert_eq!(extract_diagrams("````MERMAID x\npie\n```\n````")[0].1, "pie\n```");
}

#[test]
fn labels_have_room_in_a_tab() {
    for long in ["x".repeat(200), "é".repeat(19)] {
        assert_eq!(label(&format!("pie\n title {long}"), &[]).chars().count(), LABEL_MAX_CHARS);
    }
}

fn diagram(source: &str) -> ArtifactKind {
    ArtifactKind::Diagram { source: source.into() }
}

#[test]
fn same_diagram_bumps_instead_of_duplicating_and_moves_to_newest() {
    let mut list: Vec<Artifact> = Vec::new();
    let a = upsert(&mut list, "a".into(), diagram("A"));
    let b = upsert(&mut list, "b".into(), diagram("B"));
    let again = upsert(&mut list, "a2".into(), diagram("A"));
    assert_eq!(a, again);
    assert_ne!(a, b);
    assert_eq!(list.len(), 2);
    assert_eq!(list[1].id, a);
    assert_eq!(list[1].revision, 1);
    assert_eq!(list[1].label, "a", "a bump keeps the original label");
}

#[test]
fn cap_evicts_the_oldest() {
    let mut list: Vec<Artifact> = Vec::new();
    for i in 0..(CAP_PER_WORKSPACE + 3) {
        upsert(&mut list, i.to_string(), diagram(&i.to_string()));
    }
    assert_eq!(list.len(), CAP_PER_WORKSPACE);
    assert_eq!(list[0].label, "3");
}

#[test]
fn boot_prune_drops_pages_whose_file_is_gone_and_keeps_diagrams() {
    let mut list: Vec<Artifact> = Vec::new();
    upsert(&mut list, "d".into(), diagram("graph TD"));
    upsert(&mut list, "here".into(), ArtifactKind::Page { path: "/t/here.html".into() });
    upsert(&mut list, "gone".into(), ArtifactKind::Page { path: "/t/gone.html".into() });
    assert_eq!(prune_missing_pages(&mut list, &["/t/here.html".to_string()]), 1);
    assert_eq!(list.iter().map(|a| a.label.as_str()).collect::<Vec<_>>(), ["d", "here"]);
}

#[test]
fn dismissing_drops_one() {
    let mut list: Vec<Artifact> = Vec::new();
    let a = upsert(&mut list, "a".into(), diagram("A"));
    upsert(&mut list, "b".into(), diagram("B"));
    dismiss(&mut list, &a);
    assert_eq!(list.len(), 1);
    assert_eq!(list[0].label, "b");
}

fn call<'a>(
    tool_name: &'a str,
    file_path: Option<&'a str>,
    command: Option<&'a str>,
) -> ToolCall<'a> {
    ToolCall { tool_name: Some(tool_name), file_path, command, cwd: Some("/w/repo") }
}

#[test]
fn file_tools_count_only_for_html() {
    assert_eq!(
        page_written(&call("Write", Some("/w/show-me-x.html"), None)).as_deref(),
        Some("/w/show-me-x.html")
    );
    assert!(page_written(&call("Edit", Some("/w/a.HTM"), None)).is_some());
    assert!(page_written(&call("Write", Some("/w/a.md"), None)).is_none());
    assert!(page_written(&call("Write", None, None)).is_none());
    assert!(page_written(&call("Read", Some("/w/a.html"), None)).is_none());
}

#[test]
fn bash_open_of_an_html_file_counts_and_resolves_against_cwd() {
    let heredoc_then_open = "mkdir -p ./tmp && cat > ./tmp/x.html <<'HTML'\n<p>hi</p>\nHTML\nopen ./tmp/x.html";
    assert_eq!(
        page_written(&call("Bash", None, Some(heredoc_then_open))).as_deref(),
        Some("/w/repo/./tmp/x.html")
    );
    assert_eq!(
        page_written(&call("Bash", None, Some("open -a \"Google Chrome\" /abs/p.html"))).as_deref(),
        Some("/abs/p.html")
    );
    assert_eq!(
        page_written(&call("Bash", None, Some("open 'my page.html'"))).as_deref(),
        Some("/w/repo/my page.html")
    );
    assert!(page_written(&call("Bash", None, Some("open https://example.com"))).is_none());
    assert!(page_written(&call("Bash", None, Some("cat > a.html <<EOF\nx\nEOF"))).is_none());
    assert!(page_written(&call("Bash", None, Some("echo open a.html"))).is_none());
}

#[test]
fn a_page_is_called_by_its_file() {
    assert_eq!(page_label("/w/a/show.html"), "show.html");
    assert_eq!(page_label("/"), "page");
}

#[test]
fn what_a_session_makes_is_recorded() {
    let mut all: Vec<Artifact> = Vec::new();
    assert_eq!(record_page(&mut all, "/elsewhere/x.html".into(), false), None);
    assert!(all.is_empty());
    let page = record_page(&mut all, "/wt/x.html".into(), true).expect("it is inside");
    let reply = "one\n```mermaid\ngraph TD\n  A-->B\n```\n```mermaid\npie\n```\n";
    let ids = record_diagrams(&mut all, reply);
    assert_eq!(ids.len(), 2);
    assert_eq!(all.len(), 3);
    assert_eq!(all[0].label, "x.html");
    assert_eq!(record_diagrams(&mut all, reply), ids);
    assert_eq!(all[2].revision, 1);
    assert_eq!(record_page(&mut all, "/wt/x.html".into(), true), Some(page));
    assert_eq!(all.last().unwrap().revision, 1);
    assert!(record_diagrams(&mut all, "nothing").is_empty());
}

#[test]
fn a_page_is_the_same_however_its_path_is_written() {
    let mut all: Vec<Artifact> = Vec::new();
    let page = |path: &str| ArtifactKind::Page { path: path.into() };
    let id = upsert(&mut all, "a".into(), page("/w/a.html"));
    for path in ["/w//a.html", "/w/./a.html", "//w/a.html/"] {
        assert_eq!(upsert(&mut all, "a".into(), page(path)), id, "{path}");
    }
    assert_eq!((all.len(), all[0].revision), (1, 3));
    for path in ["w/a.html", "/w/b/../a.html", "./w/a.html"] {
        upsert(&mut all, "a".into(), page(path));
    }
    assert_eq!(all.len(), 4);
}

#[test]
fn quotes_keep_a_command_together() {
    assert_eq!(
        page_written(&call("Bash", None, Some("open \"/w/R&D; plan.html\""))).as_deref(),
        Some("/w/R&D; plan.html")
    );
    assert!(page_written(&call("Bash", None, Some("echo 'x; open /w/a.html'"))).is_none());
    let body = "cat > /w/a.html <<EOF\ndon't\nEOF\nopen /w/a.html";
    assert_eq!(
        page_written(&call("Bash", None, Some(body))).as_deref(),
        Some("/w/a.html")
    );
}

#[test]
fn replies_that_follow_each_other_keep_their_diagrams() {
    let second = "then\n```mermaid\npie\n```\n";
    let both = extract_diagrams(&format!("{SCREENSHOT}{second}"));
    let sources: Vec<&str> = both.iter().map(|d| d.1.as_str()).collect();
    let one = extract_diagrams(SCREENSHOT);
    let two = extract_diagrams(second);
    let apart: Vec<&str> = one.iter().chain(two.iter()).map(|d| d.1.as_str()).collect();
    assert_eq!(sources, apart);
    assert_eq!(sources.len(), 3);
    assert!(extract_diagrams("no fence here\n`mermaid`").is_empty());
    assert!(extract_diagrams("```mermaid\n  \n```\n").is_empty());
}
