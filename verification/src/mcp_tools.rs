//! The tool server: what its two tools take, what is asked of the application for
//! each call, and what the calling agent is told.

use vstd::prelude::*;

use crate::agent::AgentName;
use crate::json;
use crate::json::{Json, JsonView};
use crate::mcp_wire;
use crate::mcp_wire::{CreateWorkspace, LinkPr, Request, Response};
use crate::shell;
use crate::text;

verus! {

/// The server, with the identity that it was started with.
#[derive(Debug)]
pub struct TethysServer {
    pub socket: String,
    pub from_workspace: String,
    pub from_session: Option<String>,
    pub repo_keys: Vec<String>,
}

/// The parts without the white space around them, but for those that are nothing
/// else.
pub open spec fn listed(parts: Seq<Seq<char>>) -> Seq<Seq<char>>
    decreases parts.len(),
{
    if parts.len() == 0 {
        seq![]
    } else {
        let before = listed(parts.drop_last());
        let last = text::trim(parts.last());
        if last.len() == 0 {
            before
        } else {
            before.push(last)
        }
    }
}

fn listed_in(s: &str) -> (r: Vec<String>)
    ensures
        text::views(r@) == listed(text::split(s@, ',')),
{
    let parts = text::split_on(s, ',');
    let ghost all = text::views(parts@);
    let mut r: Vec<String> = Vec::new();
    let mut i: usize = 0;
    assert(all.take(0).len() == 0);
    assert(text::views(r@) =~= seq![]);
    while i < parts.len()
        invariant
            i <= parts.len(),
            all == text::views(parts@),
            text::views(r@) == listed(all.take(i as int)),
        decreases parts.len() - i,
    {
        let t = text::trimmed(&parts[i]);
        proof {
            assert(all.take(i + 1).drop_last() =~= all.take(i as int));
            assert(all.take(i + 1).last() == parts@[i as int]@);
        }
        if !t.as_str().is_empty() {
            let ghost before = r@;
            r.push(t);
            assert(text::views(r@) =~= text::views(before).push(t@));
        }
        i = i + 1;
    }
    assert(all.take(i as int) =~= all);
    r
}

/// What a list of repos has for items: any text, or where there are repos to name
/// one of their keys.
pub open spec fn repo_items(keys: Seq<Seq<char>>) -> JsonView {
    JsonView::Object(
        if keys.len() == 0 {
            seq![("type"@, JsonView::Str("string"@))]
        } else {
            seq![("type"@, JsonView::Str("string"@)), ("enum"@, json::text_array(keys))]
        },
    )
}

/// A property that is a text or a flag.
pub open spec fn property(kind: Seq<char>, description: Seq<char>) -> JsonView {
    JsonView::Object(
        seq![("type"@, JsonView::Str(kind)), ("description"@, JsonView::Str(description))],
    )
}

/// A tool's argument object, with nothing allowed beyond its properties.
pub open spec fn arguments(
    properties: Seq<(Seq<char>, JsonView)>,
    required: Seq<Seq<char>>,
) -> JsonView {
    JsonView::Object(
        seq![
            ("type"@, JsonView::Str("object"@)),
            ("properties"@, JsonView::Object(properties)),
            ("required"@, json::text_array(required)),
            ("additionalProperties"@, JsonView::Bool(false)),
        ],
    )
}

/// The arguments of the tool that hands work over.
pub open spec fn create_workspace_arguments(keys: Seq<Seq<char>>) -> JsonView {
    arguments(
        seq![
            (
                "repos"@,
                JsonView::Object(
                    seq![
                        ("type"@, JsonView::Str("array"@)),
                        ("items"@, repo_items(keys)),
                        ("minItems"@, JsonView::Number(json::number_of(1))),
                        ("description"@, JsonView::Str(ABOUT_REPOS@)),
                    ],
                ),
            ),
            ("branch"@, property("string"@, ABOUT_BRANCH@)),
            ("brief"@, property("string"@, ABOUT_BRIEF@)),
            ("blocks_caller"@, property("boolean"@, ABOUT_BLOCKS_CALLER@)),
        ],
        seq!["repos"@, "branch"@, "brief"@],
    )
}

/// What the repo of a pull request is named by.
pub open spec fn repo_key_property(keys: Seq<Seq<char>>) -> JsonView {
    JsonView::Object(
        if keys.len() == 0 {
            seq![
                ("type"@, JsonView::Str("string"@)),
                ("description"@, JsonView::Str(ABOUT_REPO_KEY@)),
            ]
        } else {
            seq![
                ("type"@, JsonView::Str("string"@)),
                ("description"@, JsonView::Str(ABOUT_REPO_KEY@)),
                ("enum"@, json::text_array(keys)),
            ]
        },
    )
}

/// The arguments of the tool that links a pull request. Only the reference is
/// needed: a repo is named to tell several apart.
pub open spec fn link_pr_arguments(keys: Seq<Seq<char>>) -> JsonView {
    arguments(
        seq![
            ("reference"@, property("string"@, ABOUT_REFERENCE@)),
            ("repo_key"@, repo_key_property(keys)),
        ],
        seq!["reference"@],
    )
}

pub const ABOUT_REPOS: &'static str =
    "Repo keys the new workspace should span. Each becomes a git worktree checked out on `branch`.";

pub const ABOUT_BRANCH: &'static str =
    "Branch to create in every listed repo. If the name is already in use a numeric suffix is added, and the branch actually used is reported back.";

pub const ABOUT_BRIEF: &'static str =
    "The first message for the session that picks this work up. Write it for a fresh agent with no memory of this conversation: what to do, why, and anything it cannot discover from the code. This is the only thing carried across — you cannot follow up.";

pub const ABOUT_BLOCKS_CALLER: &'static str =
    "Set true when you cannot continue until this work lands. Marks the workspace you are in as waiting on the new one, which shows up in Tethys as a nested row. Purely a visual reminder — nothing is paused or gated, and you will not be told when it clears. Leave it out for work that runs alongside yours.";

pub const ABOUT_REFERENCE: &'static str =
    "The pull request: a full GitHub URL, `owner/repo#123`, or just the number.";

pub const ABOUT_REPO_KEY: &'static str =
    "Which of this workspace's repos the PR belongs to. Only needed when the workspace spans more than one GitHub repo and you are passing a bare number.";

proof fn lemma_texts_distinct(v: Seq<Seq<char>>)
    ensures
        json::keys_distinct(json::text_array(v)),
{
    json::lemma_array_distinct(v.map_values(|s: Seq<char>| JsonView::Str(s)));
}

proof fn lemma_property_distinct(kind: Seq<char>, description: Seq<char>)
    ensures
        json::keys_distinct(property(kind, description)),
{
    reveal_strlit("type");
    reveal_strlit("description");
    assert("type"@.len() != "description"@.len());
    json::lemma_object_distinct(property(kind, description)->Object_0);
}

/// An argument object has no key twice where its properties have none.
proof fn lemma_arguments_distinct(
    properties: Seq<(Seq<char>, JsonView)>,
    required: Seq<Seq<char>>,
)
    requires
        json::keys_distinct(JsonView::Object(properties)),
    ensures
        json::keys_distinct(arguments(properties, required)),
{
    reveal_strlit("type");
    reveal_strlit("properties");
    reveal_strlit("required");
    reveal_strlit("additionalProperties");
    assert("type"@.len() == 4 && "properties"@.len() == 10 && "required"@.len() == 8);
    assert("additionalProperties"@.len() == 20);
    lemma_texts_distinct(required);
    let o = arguments(properties, required)->Object_0;
    assert(json::names_distinct(o));
    json::lemma_object_distinct(o);
}

proof fn lemma_create_workspace_distinct(keys: Seq<Seq<char>>)
    ensures
        json::keys_distinct(create_workspace_arguments(keys)),
{
    reveal_strlit("type");
    reveal_strlit("enum");
    reveal_strlit("items");
    reveal_strlit("minItems");
    reveal_strlit("description");
    reveal_strlit("repos");
    reveal_strlit("branch");
    reveal_strlit("brief");
    reveal_strlit("blocks_caller");
    let items = repo_items(keys)->Object_0;
    lemma_texts_distinct(keys);
    assert("type"@[0] != "enum"@[0]);
    assert(json::names_distinct(items));
    json::lemma_object_distinct(items);
    let repos = seq![
        ("type"@, JsonView::Str("array"@)),
        ("items"@, repo_items(keys)),
        ("minItems"@, JsonView::Number(json::number_of(1))),
        ("description"@, JsonView::Str(ABOUT_REPOS@)),
    ];
    assert("type"@.len() == 4 && "items"@.len() == 5 && "minItems"@.len() == 8);
    assert("description"@.len() == 11);
    assert(json::names_distinct(repos));
    json::lemma_object_distinct(repos);
    lemma_property_distinct("string"@, ABOUT_BRANCH@);
    lemma_property_distinct("string"@, ABOUT_BRIEF@);
    lemma_property_distinct("boolean"@, ABOUT_BLOCKS_CALLER@);
    let properties = seq![
        ("repos"@, JsonView::Object(repos)),
        ("branch"@, property("string"@, ABOUT_BRANCH@)),
        ("brief"@, property("string"@, ABOUT_BRIEF@)),
        ("blocks_caller"@, property("boolean"@, ABOUT_BLOCKS_CALLER@)),
    ];
    assert("repos"@[0] != "brief"@[0]);
    assert("repos"@.len() == 5 && "branch"@.len() == 6 && "brief"@.len() == 5);
    assert("blocks_caller"@.len() == 13);
    assert(json::names_distinct(properties));
    json::lemma_object_distinct(properties);
    lemma_arguments_distinct(properties, seq!["repos"@, "branch"@, "brief"@]);
}

proof fn lemma_link_pr_distinct(keys: Seq<Seq<char>>)
    ensures
        json::keys_distinct(link_pr_arguments(keys)),
{
    reveal_strlit("type");
    reveal_strlit("enum");
    reveal_strlit("description");
    reveal_strlit("reference");
    reveal_strlit("repo_key");
    let repo_key = repo_key_property(keys)->Object_0;
    lemma_texts_distinct(keys);
    assert("type"@[0] != "enum"@[0]);
    assert("type"@.len() == 4 && "enum"@.len() == 4 && "description"@.len() == 11);
    assert(json::names_distinct(repo_key));
    json::lemma_object_distinct(repo_key);
    lemma_property_distinct("string"@, ABOUT_REFERENCE@);
    let properties = seq![
        ("reference"@, property("string"@, ABOUT_REFERENCE@)),
        ("repo_key"@, repo_key_property(keys)),
    ];
    assert("reference"@.len() != "repo_key"@.len());
    assert(json::names_distinct(properties));
    json::lemma_object_distinct(properties);
    lemma_arguments_distinct(properties, seq!["reference"@]);
}

fn property_value(kind: &str, description: &str) -> (r: Json)
    ensures
        r@ == property(kind@, description@),
{
    let o = vec![
        json::field("type", json::string(kind)),
        json::field("description", json::string(description)),
    ];
    assert(json::members(o@) =~= property(kind@, description@)->Object_0);
    json::object(o)
}

fn arguments_value(properties: Vec<(String, Json)>, required: &[String]) -> (r: Json)
    ensures
        r@ == arguments(json::members(properties@), text::views(required@)),
{
    let ghost given = json::members(properties@);
    let o = vec![
        json::field("type", json::string("object")),
        json::field("properties", json::object(properties)),
        json::field("required", json::strings(required)),
        json::field("additionalProperties", Json::Bool(false)),
    ];
    assert(json::members(o@) =~= arguments(given, text::views(required@))->Object_0);
    json::object(o)
}

impl TethysServer {
    /// The server that a set of environment variables describes. Without a socket
    /// and a workspace it was not started by the application, and there is nothing
    /// it could do.
    pub fn from_env(
        socket: Option<String>,
        workspace_id: Option<String>,
        session_id: Option<String>,
        repo_keys: Option<String>,
    ) -> (r: Result<Self, String>)
        ensures
            match (socket, workspace_id) {
                (None, _) => r matches Err(m) && m@ == mcp_wire::ENV_SOCKET@ + " is not set"@,
                (Some(_), None) => r matches Err(m) && m@ == mcp_wire::ENV_WORKSPACE_ID@
                    + " is not set"@,
                (Some(s), Some(w)) => r matches Ok(server) && server.socket == s
                    && server.from_workspace == w && server.from_session == (match session_id {
                    Some(id) => if id@.len() == 0 {
                        None
                    } else {
                        session_id
                    },
                    None => None,
                }) && text::views(server.repo_keys@) == (match repo_keys {
                    Some(k) => listed(text::split(k@, ',')),
                    None => seq![],
                }),
            },
    {
        let socket = match socket {
            Some(s) => s,
            None => {
                return Err(text::cat(mcp_wire::ENV_SOCKET, " is not set"));
            },
        };
        let from_workspace = match workspace_id {
            Some(w) => w,
            None => {
                return Err(text::cat(mcp_wire::ENV_WORKSPACE_ID, " is not set"));
            },
        };
        let from_session = match session_id {
            Some(id) => if id.as_str().is_empty() {
                None
            } else {
                Some(id)
            },
            None => None,
        };
        let repo_keys = match repo_keys {
            Some(k) => listed_in(&k),
            None => {
                let none: Vec<String> = Vec::new();
                assert(text::views(none@) =~= seq![]);
                none
            },
        };
        Ok(TethysServer { socket, from_workspace, from_session, repo_keys })
    }

    /// The arguments of the tool that hands work over. The repos are listed, so
    /// that none can be named that does not exist.
    pub fn create_workspace_schema(&self) -> (r: Json)
        ensures
            r@ == create_workspace_arguments(text::views(self.repo_keys@)),
            json::keys_distinct(r@),
    {
        proof {
            lemma_create_workspace_distinct(text::views(self.repo_keys@));
        }
        let ghost keys = text::views(self.repo_keys@);
        let mut items = vec![json::field("type", json::string("string"))];
        if self.repo_keys.len() > 0 {
            items.push(json::field("enum", json::strings(&self.repo_keys)));
        }
        assert(json::members(items@) =~= repo_items(keys)->Object_0);
        let repos = vec![
            json::field("type", json::string("array")),
            json::field("items", json::object(items)),
            json::field("minItems", json::whole_number(1)),
            json::field("description", json::string(ABOUT_REPOS)),
        ];
        let ghost repos0 = seq![
            ("type"@, JsonView::Str("array"@)),
            ("items"@, repo_items(keys)),
            ("minItems"@, JsonView::Number(json::number_of(1))),
            ("description"@, JsonView::Str(ABOUT_REPOS@)),
        ];
        assert(json::members(repos@) =~= repos0);
        let properties = vec![
            json::field("repos", json::object(repos)),
            json::field("branch", property_value("string", ABOUT_BRANCH)),
            json::field("brief", property_value("string", ABOUT_BRIEF)),
            json::field("blocks_caller", property_value("boolean", ABOUT_BLOCKS_CALLER)),
        ];
        assert(json::members(properties@) =~= seq![
            ("repos"@, JsonView::Object(repos0)),
            ("branch"@, property("string"@, ABOUT_BRANCH@)),
            ("brief"@, property("string"@, ABOUT_BRIEF@)),
            ("blocks_caller"@, property("boolean"@, ABOUT_BLOCKS_CALLER@)),
        ]);
        let required = text::list(["repos", "branch", "brief"].as_slice());
        assert(text::views(required@) =~= seq!["repos"@, "branch"@, "brief"@]);
        arguments_value(properties, &required)
    }

    /// The arguments of the tool that links a pull request.
    pub fn link_pr_schema(&self) -> (r: Json)
        ensures
            r@ == link_pr_arguments(text::views(self.repo_keys@)),
            json::keys_distinct(r@),
    {
        proof {
            lemma_link_pr_distinct(text::views(self.repo_keys@));
        }
        let ghost keys = text::views(self.repo_keys@);
        let mut repo_key = vec![
            json::field("type", json::string("string")),
            json::field("description", json::string(ABOUT_REPO_KEY)),
        ];
        if self.repo_keys.len() > 0 {
            repo_key.push(json::field("enum", json::strings(&self.repo_keys)));
        }
        assert(json::members(repo_key@) =~= repo_key_property(keys)->Object_0);
        let properties = vec![
            json::field("reference", property_value("string", ABOUT_REFERENCE)),
            json::field("repo_key", json::object(repo_key)),
        ];
        assert(json::members(properties@) =~= seq![
            ("reference"@, property("string"@, ABOUT_REFERENCE@)),
            ("repo_key"@, repo_key_property(keys)),
        ]);
        let required = text::list(["reference"].as_slice());
        assert(text::views(required@) =~= seq!["reference"@]);
        arguments_value(properties, &required)
    }

    /// What is asked of the application when work is handed over. Who is calling
    /// comes from the server's own identity, whatever the agent says.
    pub fn create_workspace(
        &self,
        repos: Vec<String>,
        branch: String,
        brief: String,
        blocks_caller: bool,
    ) -> (r: Request)
        ensures
            r == Request::CreateWorkspace(
                (CreateWorkspace {
                    from_workspace: self.from_workspace,
                    from_session: self.from_session,
                    repos,
                    branch,
                    brief,
                    blocks_caller,
                }),
            ),
    {
        Request::CreateWorkspace(
            CreateWorkspace {
                from_workspace: self.from_workspace.clone(),
                from_session: text::copied(&self.from_session),
                repos,
                branch,
                brief,
                blocks_caller,
            },
        )
    }

    /// What is asked of the application when a pull request is linked.
    pub fn link_pr(&self, reference: String, repo_key: Option<String>) -> (r: Request)
        ensures
            r == Request::LinkPr(
                (LinkPr {
                    from_workspace: self.from_workspace,
                    from_session: self.from_session,
                    repo_key,
                    reference,
                }),
            ),
    {
        Request::LinkPr(
            LinkPr {
                from_workspace: self.from_workspace.clone(),
                from_session: text::copied(&self.from_session),
                repo_key,
                reference,
            },
        )
    }
}

/// What the calling agent is told. A failure is something it reads, not something
/// its client swallows.
#[derive(Debug)]
pub enum ToolReply {
    Success(String),
    Failure(String),
}

/// A flag in words.
pub open spec fn flag_text(b: bool) -> Seq<char> {
    if b {
        "true"@
    } else {
        "false"@
    }
}

/// An answer, field by field.
pub open spec fn answer_text(response: Response) -> Seq<char> {
    match response {
        Response::Accepted { workspace_id, branch } => "Accepted { workspace_id: "@
            + shell::quoted_text(workspace_id@) + ", branch: "@ + shell::quoted_text(branch@)
            + " }"@,
        Response::Linked { repo_key, number, url, is_branch_pr } => "Linked { repo_key: "@
            + shell::quoted_text(repo_key@) + ", number: "@ + text::dec(number as nat)
            + ", url: "@ + shell::quoted_text(url@) + ", is_branch_pr: "@ + flag_text(is_branch_pr)
            + " }"@,
        Response::Rejected { message } => "Rejected { message: "@ + shell::quoted_text(message@)
            + " }"@,
    }
}

fn answer_words(response: &Response) -> (r: String)
    ensures
        r@ == answer_text(*response),
{
    match response {
        Response::Accepted { workspace_id, branch } => {
            let mut r = text::cat3(
                "Accepted { workspace_id: ",
                &shell::quoted(workspace_id),
                ", branch: ",
            );
            r.append(&shell::quoted(branch));
            r.append(" }");
            r
        },
        Response::Linked { repo_key, number, url, is_branch_pr } => {
            let mut r = text::cat3("Linked { repo_key: ", &shell::quoted(repo_key), ", number: ");
            r.append(&text::decimal(*number as u64));
            r.append(", url: ");
            r.append(&shell::quoted(url));
            r.append(", is_branch_pr: ");
            if *is_branch_pr {
                r.append("true");
            } else {
                r.append("false");
            }
            r.append(" }");
            r
        },
        Response::Rejected { message } => text::cat3(
            "Rejected { message: ",
            &shell::quoted(message),
            " }",
        ),
    }
}

/// What the agent is told about work that it handed over.
pub fn create_workspace_reply(answer: Result<Response, String>) -> (r: ToolReply)
    ensures
        match answer {
            Err(e) => r matches ToolReply::Failure(m) && m@
                == "handoff failed, no workspace was created: "@ + e@,
            Ok(Response::Accepted { workspace_id, branch }) => r matches ToolReply::Success(m) && m@
                == "Handoff accepted. Workspace "@ + workspace_id@
                + " is provisioning on branch `"@ + branch@
                + "`; its session starts with your brief once the worktrees are ready. Nothing further is reported back here — if provisioning fails, Ryan sees it in Tethys."@,
            Ok(Response::Rejected { message }) => r matches ToolReply::Failure(m) && m@
                == "handoff refused, no workspace was created: "@ + message@,
            Ok(other) => r matches ToolReply::Failure(m) && m@
                == "Tethys answered a handoff with "@ + answer_text(other),
        },
{
    match answer {
        Err(e) => ToolReply::Failure(
            text::cat("handoff failed, no workspace was created: ", &e),
        ),
        Ok(Response::Accepted { workspace_id, branch }) => {
            let mut m = text::cat3(
                "Handoff accepted. Workspace ",
                &workspace_id,
                " is provisioning on branch `",
            );
            m.append(&branch);
            m.append(
                "`; its session starts with your brief once the worktrees are ready. Nothing further is reported back here — if provisioning fails, Ryan sees it in Tethys.",
            );
            ToolReply::Success(m)
        },
        Ok(Response::Rejected { message }) => ToolReply::Failure(
            text::cat("handoff refused, no workspace was created: ", &message),
        ),
        Ok(other) => ToolReply::Failure(
            text::cat("Tethys answered a handoff with ", &answer_words(&other)),
        ),
    }
}

/// What the agent is told about a pull request that it linked.
pub fn link_pr_reply(answer: Result<Response, String>) -> (r: ToolReply)
    ensures
        match answer {
            Err(e) => r matches ToolReply::Failure(m) && m@
                == "link failed, nothing was linked: "@ + e@,
            Ok(Response::Linked { repo_key, number, url, is_branch_pr }) =>
                r matches ToolReply::Success(m) && m@ == "Linked PR #"@ + text::dec(number as nat)
                + " ("@ + url@ + ") to this workspace's "@ + repo_key@ + " repo, as "@ + (
            if is_branch_pr {
                "this workspace's branch PR"@
            } else {
                "an extra PR on that repo"@
            })
                + ". Tethys polls it from here on, so its CI and review state show up on the workspace row."@,
            Ok(Response::Rejected { message }) => r matches ToolReply::Failure(m) && m@
                == "link refused, nothing was linked: "@ + message@,
            Ok(other) => r matches ToolReply::Failure(m) && m@ == "Tethys answered a link with "@
                + answer_text(other),
        },
{
    match answer {
        Err(e) => ToolReply::Failure(text::cat("link failed, nothing was linked: ", &e)),
        Ok(Response::Linked { repo_key, number, url, is_branch_pr }) => {
            let mut m = text::cat3("Linked PR #", &text::decimal(number as u64), " (");
            m.append(&url);
            m.append(") to this workspace's ");
            m.append(&repo_key);
            m.append(" repo, as ");
            if is_branch_pr {
                m.append("this workspace's branch PR");
            } else {
                m.append("an extra PR on that repo");
            }
            m.append(
                ". Tethys polls it from here on, so its CI and review state show up on the workspace row.",
            );
            ToolReply::Success(m)
        },
        Ok(Response::Rejected { message }) => ToolReply::Failure(
            text::cat("link refused, nothing was linked: ", &message),
        ),
        Ok(other) => ToolReply::Failure(
            text::cat("Tethys answered a link with ", &answer_words(&other)),
        ),
    }
}

/// The tool that a call is for.
#[derive(Debug, Clone, Copy, PartialEq, Eq, Structural)]
pub enum ToolName {
    CreateWorkspace,
    LinkPr,
}

/// The tool that a call names.
pub fn call_tool(name: &str) -> (r: Result<ToolName, String>)
    ensures
        if name@ == mcp_wire::TOOL_CREATE_WORKSPACE@ {
            r == Ok::<ToolName, String>(ToolName::CreateWorkspace)
        } else if name@ == mcp_wire::TOOL_LINK_PR@ {
            r == Ok::<ToolName, String>(ToolName::LinkPr)
        } else {
            r matches Err(m) && m@ == "unknown tool: "@ + name@
        },
{
    if text::same(name, mcp_wire::TOOL_CREATE_WORKSPACE) {
        Ok(ToolName::CreateWorkspace)
    } else if text::same(name, mcp_wire::TOOL_LINK_PR) {
        Ok(ToolName::LinkPr)
    } else {
        Err(text::cat("unknown tool: ", name))
    }
}

/// What the tool that hands work over is for, up to the agent's name.
pub const ABOUT_CREATE_WORKSPACE: &'static str = "Hand work off to a new Tethys workspace, running independently of this session. Creates a fresh git worktree per listed repo, all on a new branch, then starts one ";

/// What the tool that hands work over is for, from the agent's name on.
pub const ABOUT_THE_NEW_WORKSPACE: &'static str = " session at the workspace root with your brief as its first message.\n\nProvisioning (clone, dependency install, setup scripts) takes minutes and happens in the background: this call returns as soon as the handoff is accepted, not when the workspace is ready. You will not hear back from it, cannot read its progress, and cannot send it anything further — so put everything it needs in the brief.\n\nReach for it when work should proceed on its own branch, in parallel with what you are doing. It is the wrong tool for work belonging on the current branch, which you should just do.";

/// What the tool that links a pull request is for.
pub const ABOUT_LINK_PR: &'static str = "Show a pull request on the Tethys workspace this session belongs to, so Ryan sees its state — CI, reviews, conflicts — on the row for this work without going looking for it.\n\nCall it right after you open a PR. Tethys finds the PR for the workspace's own branch by itself, so the case this exists for is a PR you opened from some other branch in the same worktree — a stacked PR, a follow-up, a fix cut off main. Calling it for the branch PR anyway is harmless and simply makes it appear sooner.\n\nThe PR must already exist on GitHub: this records it, it does not create or modify anything. Fails if the number is wrong or the repo isn't one this workspace spans.";

/// What the server says of itself.
pub fn instructions(name: &AgentName) -> (r: String)
    ensures
        r@ == "Tethys manages parallel "@ + name.title@
            + " sessions across git worktrees. Use create_workspace to hand a distinct piece of work to a fresh workspace with its own branch and its own session."@,
{
    text::cat3(
        "Tethys manages parallel ",
        &name.title,
        " sessions across git worktrees. Use create_workspace to hand a distinct piece of work to a fresh workspace with its own branch and its own session.",
    )
}

/// A tool as it is listed.
pub struct Tool {
    pub name: &'static str,
    pub description: String,
    /// What it takes.
    pub schema: Json,
}

/// The list of the tools. It says how long it may be kept, without which it is not
/// accepted: not at all, since the repos in it are those of this session.
pub struct ToolList {
    pub tools: Vec<Tool>,
    pub ttl_ms: u64,
    pub is_private: bool,
}

impl TethysServer {
    /// The tools, as they are listed.
    pub fn tools_result(&self, name: &AgentName) -> (r: ToolList)
        ensures
            r.ttl_ms == 0,
            r.is_private,
            r.tools@.len() == 2,
            r.tools@[0].name@ == mcp_wire::TOOL_CREATE_WORKSPACE@,
            r.tools@[0].description@ == ABOUT_CREATE_WORKSPACE@ + name.title@
                + ABOUT_THE_NEW_WORKSPACE@,
            r.tools@[0].schema@ == create_workspace_arguments(text::views(self.repo_keys@)),
            json::keys_distinct(r.tools@[0].schema@),
            r.tools@[1].name@ == mcp_wire::TOOL_LINK_PR@,
            r.tools@[1].description@ == ABOUT_LINK_PR@,
            r.tools@[1].schema@ == link_pr_arguments(text::views(self.repo_keys@)),
            json::keys_distinct(r.tools@[1].schema@),
    {
        let create = Tool {
            name: mcp_wire::TOOL_CREATE_WORKSPACE,
            description: text::cat3(
                ABOUT_CREATE_WORKSPACE,
                &name.title,
                ABOUT_THE_NEW_WORKSPACE,
            ),
            schema: self.create_workspace_schema(),
        };
        let link = Tool {
            name: mcp_wire::TOOL_LINK_PR,
            description: ABOUT_LINK_PR.to_owned(),
            schema: self.link_pr_schema(),
        };
        ToolList { tools: vec![create, link], ttl_ms: 0, is_private: true }
    }

    /// What is said where the application does not answer.
    pub fn unreachable_message(&self, cause: &str) -> (r: String)
        ensures
            r@ == "could not reach Tethys at "@ + self.socket@ + ": "@ + cause@,
    {
        let mut m = text::cat3("could not reach Tethys at ", &self.socket, ": ");
        m.append(cause);
        m
    }
}

/// What a list in one text names is what stands between its commas, without white space
/// around it and without what is empty.
pub proof fn a_list_names_what_is_between_commas(parts: Seq<Seq<char>>, t: Seq<char>)
    ensures
        listed(parts).contains(t) <==> t.len() > 0 && exists|i: int|
            0 <= i < parts.len() && text::trim(#[trigger] parts[i]) == t,
        listed(parts).len() <= parts.len(),
    decreases parts.len(),
{
    if parts.len() > 0 {
        let rest = parts.drop_last();
        a_list_names_what_is_between_commas(rest, t);
        let before = listed(rest);
        let all = listed(parts);
        let last = text::trim(parts.last());
        if before.contains(t) {
            let k = choose|k: int| 0 <= k < before.len() && before[k] == t;
            assert(all[k] == t);
            let i = choose|i: int| 0 <= i < rest.len() && text::trim(#[trigger] rest[i]) == t;
            assert(text::trim(parts[i]) == t);
        }
        if last.len() > 0 {
            assert(all[before.len() as int] == last);
            assert(text::trim(parts[parts.len() - 1]) == last);
            if all.contains(t) && t != last {
                let k = choose|k: int| 0 <= k < all.len() && all[k] == t;
                assert(before[k] == t);
            }
        }
        if exists|i: int| 0 <= i < parts.len() && text::trim(#[trigger] parts[i]) == t {
            let i = choose|i: int| 0 <= i < parts.len() && text::trim(#[trigger] parts[i]) == t;
            if i < rest.len() {
                assert(text::trim(rest[i]) == t);
            }
        }
    }
}

/// The tools say which repos there are, where any are known, and take any text where
/// none is: so a caller is held to the keys that the workspace has.
pub proof fn the_tools_name_the_repos(keys: Seq<Seq<char>>)
    ensures
        ({
            let items = repo_items(keys)->Object_0;
            let key = repo_key_property(keys)->Object_0;
            &&& repo_items(keys) is Object && repo_key_property(keys) is Object
            &&& keys.len() > 0 ==> json::get(items, "enum"@) == Some(
                JsonView::Array(keys.map_values(|s: Seq<char>| JsonView::Str(s))),
            ) && json::get(key, "enum"@) == json::get(items, "enum"@)
            &&& keys.len() == 0 ==> json::get(items, "enum"@) is None && json::get(key, "enum"@)
                is None
            &&& json::get(items, "type"@) == Some(JsonView::Str("string"@))
            &&& json::get(key, "type"@) == Some(JsonView::Str("string"@))
        }),
{
    reveal_strlit("type");
    reveal_strlit("enum");
    reveal_strlit("description");
    assert("type"@[0] != "enum"@[0]);
    assert("description"@.len() == 11 && "type"@.len() == 4 && "enum"@.len() == 4);
    let items = repo_items(keys)->Object_0;
    let key = repo_key_property(keys)->Object_0;
    json::the_first_member_counts(items, "type"@, 0);
    json::the_first_member_counts(key, "type"@, 0);
    if keys.len() > 0 {
        json::the_first_member_counts(items, "enum"@, 1);
        json::the_first_member_counts(key, "enum"@, 2);
    } else {
        json::the_first_member_counts(items, "enum"@, 1);
        json::the_first_member_counts(key, "enum"@, 2);
    }
}

/// A new workspace needs its repos, its branch and its brief, and a link its reference;
/// neither takes an argument that it does not know.
pub proof fn what_the_tools_ask_for(keys: Seq<Seq<char>>)
    ensures
        ({
            let create = create_workspace_arguments(keys)->Object_0;
            let link = link_pr_arguments(keys)->Object_0;
            &&& create_workspace_arguments(keys) is Object && link_pr_arguments(keys) is Object
            &&& json::get(create, "required"@) matches Some(JsonView::Array(a)) && a.len() == 3
                && a[0] == JsonView::Str("repos"@) && a[1] == JsonView::Str("branch"@) && a[2]
                == JsonView::Str("brief"@)
            &&& json::get(link, "required"@) matches Some(JsonView::Array(b)) && b.len() == 1
                && b[0] == JsonView::Str("reference"@)
            &&& json::get(create, "additionalProperties"@) == Some(JsonView::Bool(false))
            &&& json::get(link, "additionalProperties"@) == Some(JsonView::Bool(false))
        }),
{
    reveal_strlit("type");
    reveal_strlit("properties");
    reveal_strlit("required");
    reveal_strlit("additionalProperties");
    assert("type"@.len() == 4 && "properties"@.len() == 10 && "required"@.len() == 8
        && "additionalProperties"@.len() == 20);
    let create = create_workspace_arguments(keys)->Object_0;
    let link = link_pr_arguments(keys)->Object_0;
    json::the_first_member_counts(create, "required"@, 2);
    json::the_first_member_counts(link, "required"@, 2);
    json::the_first_member_counts(create, "additionalProperties"@, 3);
    json::the_first_member_counts(link, "additionalProperties"@, 3);
}

/// The arguments are told by their types: the repos are a list with something in it, the
/// branch and the brief are texts, and whether the caller is blocked is yes or no; a
/// reference is a text.
pub proof fn what_the_arguments_are(keys: Seq<Seq<char>>)
    ensures
        ({
            let create = create_workspace_arguments(keys)->Object_0;
            let all = json::object_in(create, "properties"@);
            let link = json::object_in(link_pr_arguments(keys)->Object_0, "properties"@);
            &&& all.len() == 4 && link.len() == 2
            &&& all[0].0 == "repos"@ && all[1].0 == "branch"@ && all[2].0 == "brief"@ && all[3].0
                == "blocks_caller"@
            &&& all[0].1 is Object && json::get(all[0].1->Object_0, "type"@) == Some(
                JsonView::Str("array"@),
            ) && json::get(all[0].1->Object_0, "minItems"@) == Some(
                JsonView::Number(json::number_of(1)),
            )
            &&& all[1].1 is Object && json::get(all[1].1->Object_0, "type"@) == Some(
                JsonView::Str("string"@),
            )
            &&& all[2].1 is Object && json::get(all[2].1->Object_0, "type"@) == Some(
                JsonView::Str("string"@),
            )
            &&& all[3].1 is Object && json::get(all[3].1->Object_0, "type"@) == Some(
                JsonView::Str("boolean"@),
            )
            &&& link[0].0 == "reference"@ && link[1].0 == "repo_key"@
            &&& link[0].1 is Object && json::get(link[0].1->Object_0, "type"@) == Some(
                JsonView::Str("string"@),
            )
        }),
{
    reveal_strlit("type");
    reveal_strlit("items");
    reveal_strlit("minItems");
    reveal_strlit("properties");
    assert("type"@.len() == 4 && "properties"@.len() == 10 && "items"@.len() == 5
        && "minItems"@.len() == 8);
    let create = create_workspace_arguments(keys)->Object_0;
    let other = link_pr_arguments(keys)->Object_0;
    json::the_first_member_counts(create, "properties"@, 1);
    json::the_first_member_counts(other, "properties"@, 1);
    let all = json::object_in(create, "properties"@);
    let link = json::object_in(other, "properties"@);
    json::the_first_member_counts(all[0].1->Object_0, "type"@, 0);
    json::the_first_member_counts(all[0].1->Object_0, "minItems"@, 2);
    json::the_first_member_counts(all[1].1->Object_0, "type"@, 0);
    json::the_first_member_counts(all[2].1->Object_0, "type"@, 0);
    json::the_first_member_counts(all[3].1->Object_0, "type"@, 0);
    json::the_first_member_counts(link[0].1->Object_0, "type"@, 0);
}

} // verus!
