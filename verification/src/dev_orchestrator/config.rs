//! What the dev servers of a project need to be told.

use vstd::prelude::*;

use crate::paths;
use crate::text;

verus! {

/// A file that is put into a container.
pub struct BindMount {
    pub host_path: String,
    pub container_path: String,
}

/// Everything that is particular to one project.
pub struct OrchestratorConfig {
    /// Where the stack lives that is always on: databases, and the backend of the
    /// main branch.
    pub main_stack_dir: String,
    /// Ports that are bound while that stack is up.
    pub main_stack_health_ports: Vec<u16>,
    /// Containers with fixed names, which may be left over from an earlier run.
    pub main_stack_orphan_container_names: Vec<String>,
    pub fe_repo_key: String,
    pub be_repo_key: String,
    /// The branch to which a worktree is compared.
    pub master_branch: String,
    /// Where the frontend sends its requests while the worktree has no backend.
    pub master_be_url: String,
    /// The variable by which the frontend is told.
    pub fe_proxy_env_var: String,
    pub fe_port_start: u16,
    pub be_port_start: u16,
    /// The frontend's command; `{port}` stands for its port.
    pub fe_command_template: String,
    pub be_command_template: String,
    /// The name of a worktree's stack; `{short}` stands for its suffix.
    pub compose_project_template: String,
    /// The name of a worktree's backend container; `{short}` stands for its suffix.
    pub be_container_template: String,
    /// Services that run in the main stack only.
    pub inactive_services: Vec<String>,
    /// Files that are linked from the main stack into a worktree.
    pub env_symlinks: Vec<String>,
    pub bind_mounts: Vec<BindMount>,
    /// Where the worktrees are.
    pub worktree_root: String,
}

/// The home directory that is taken where none is known.
pub const DEFAULT_HOME: &'static str = "/Users/nathangugel";

/// Whether this is the configuration of newlantern's stack.
pub open spec fn is_newlantern(c: OrchestratorConfig, home: Seq<char>) -> bool {
    let main = home + "/newlantern/nl-backend"@;
    &&& c.main_stack_dir@ == main
    &&& c.main_stack_health_ports@ == seq![5432u16, 6379u16]
    &&& text::views(c.main_stack_orphan_container_names@) == seq![
        "django"@,
        "celery-worker"@,
        "celery-beat"@,
    ]
    &&& c.fe_repo_key@ == "frontend"@
    &&& c.be_repo_key@ == "backend"@
    &&& c.master_branch@ == "master"@
    &&& c.master_be_url@ == "http://localhost:8000"@
    &&& c.fe_proxy_env_var@ == "NL_PROXY_TARGET"@
    &&& c.fe_port_start == 3000
    &&& c.be_port_start == 8001
    &&& c.fe_command_template@ == "yarn install && PORT={port} yarn dev"@
    &&& c.be_command_template@ == "docker compose up"@
    &&& c.compose_project_template@ == "nl-backend-{short}"@
    &&& c.be_container_template@ == "django-{short}"@
    &&& text::views(c.inactive_services@) == seq![
        "worker"@,
        "beat"@,
        "postgres"@,
        "redis"@,
        "mailhog"@,
        "pgadmin"@,
    ]
    &&& text::views(c.env_symlinks@) == seq![".env"@]
    &&& c.bind_mounts@.len() == 1
    &&& c.bind_mounts@[0].host_path@ == paths::join(main, "serviceaccount.json"@)
    &&& c.bind_mounts@[0].container_path@ == "/app/serviceaccount.json"@
    &&& c.worktree_root@ == home + "/newlantern/tethys-newlantern"@
}

impl OrchestratorConfig {
    /// The configuration of newlantern's stack, the only one so far.
    pub fn newlantern(home: Option<&str>) -> (r: Self)
        ensures
            is_newlantern(
                r,
                match home {
                    Some(h) => h@,
                    None => DEFAULT_HOME@,
                },
            ),
    {
        let home = match home {
            Some(h) => h,
            None => DEFAULT_HOME,
        };
        let main = text::cat(home, "/newlantern/nl-backend");
        let orphans = text::list(&["django", "celery-worker", "celery-beat"]);
        let inactive = text::list(&["worker", "beat", "postgres", "redis", "mailhog", "pgadmin"]);
        let links = text::list(&[".env"]);
        let mount = BindMount {
            host_path: paths::joined(&main, "serviceaccount.json"),
            container_path: "/app/serviceaccount.json".to_owned(),
        };
        let r = OrchestratorConfig {
            main_stack_dir: main,
            main_stack_health_ports: vec![5432, 6379],
            main_stack_orphan_container_names: orphans,
            fe_repo_key: "frontend".to_owned(),
            be_repo_key: "backend".to_owned(),
            master_branch: "master".to_owned(),
            master_be_url: "http://localhost:8000".to_owned(),
            fe_proxy_env_var: "NL_PROXY_TARGET".to_owned(),
            fe_port_start: 3000,
            be_port_start: 8001,
            fe_command_template: "yarn install && PORT={port} yarn dev".to_owned(),
            be_command_template: "docker compose up".to_owned(),
            compose_project_template: "nl-backend-{short}".to_owned(),
            be_container_template: "django-{short}".to_owned(),
            inactive_services: inactive,
            env_symlinks: links,
            bind_mounts: vec![mount],
            worktree_root: text::cat(home, "/newlantern/tethys-newlantern"),
        };
        proof {
            assert(r.main_stack_health_ports@ =~= seq![5432u16, 6379u16]);
            assert(text::views(r.main_stack_orphan_container_names@) =~= seq![
                "django"@,
                "celery-worker"@,
                "celery-beat"@,
            ]);
            assert(text::views(r.inactive_services@) =~= seq![
                "worker"@,
                "beat"@,
                "postgres"@,
                "redis"@,
                "mailhog"@,
                "pgadmin"@,
            ]);
            assert(text::views(r.env_symlinks@) =~= seq![".env"@]);
        }
        r
    }

    /// The name of a worktree's stack.
    pub open spec fn project_of(self, short: Seq<char>) -> Seq<char> {
        text::replace(self.compose_project_template@, "{short}"@, short)
    }

    /// The name of a worktree's backend container.
    pub open spec fn container_of(self, short: Seq<char>) -> Seq<char> {
        text::replace(self.be_container_template@, "{short}"@, short)
    }

    /// The frontend's command for a port.
    pub open spec fn fe_command_of(self, port: u16) -> Seq<char> {
        text::replace(self.fe_command_template@, "{port}"@, text::dec(port as nat))
    }

    pub fn compose_project(&self, short: &str) -> (r: String)
        ensures
            r@ == self.project_of(short@),
    {
        proof {
            reveal_strlit("{short}");
        }
        text::replaced(&self.compose_project_template, "{short}", short)
    }

    pub fn be_container(&self, short: &str) -> (r: String)
        ensures
            r@ == self.container_of(short@),
    {
        proof {
            reveal_strlit("{short}");
        }
        text::replaced(&self.be_container_template, "{short}", short)
    }

    pub fn fe_command(&self, port: u16) -> (r: String)
        ensures
            r@ == self.fe_command_of(port),
    {
        proof {
            reveal_strlit("{port}");
        }
        text::replaced(&self.fe_command_template, "{port}", &text::decimal(port as u64))
    }
}

proof fn lemma_filled(a: Seq<char>, name: Seq<char>, b: Seq<char>, to: Seq<char>)
    requires
        name.len() > 0 && name[0] == '{',
        !a.contains('{'),
        !b.contains('{'),
    ensures
        text::replace(a + name + b, name, to) == a + to + b,
{
    let s = a + name + b;
    let n = a.len() as int;
    assert(s.subrange(n, n + name.len()) =~= name);
    assert forall|k: int| 0 <= k < n implies !text::occurs_at(s, name, k) by {
        if text::occurs_at(s, name, k) {
            assert(s.subrange(k, k + name.len())[0] == s[k]);
            assert(a.contains(a[k]));
        }
    }
    text::lemma_find(s, name, n);
    text::all_occurrences_are_replaced(a, b, name, to);
    assert(!text::contains(b, name)) by {
        assert forall|k: int| !text::occurs_at(b, name, k) by {
            if text::occurs_at(b, name, k) {
                assert(b.subrange(k, k + name.len())[0] == b[k]);
                assert(b.contains(b[k]));
            }
        }
    }
    text::lemma_find_none(b, name);
    text::nothing_to_replace(b, name, to);
}

/// What a template leaves open is filled in where it stands, and the rest of the
/// template stays.
pub proof fn templates_are_filled_in(
    c: OrchestratorConfig,
    a: Seq<char>,
    b: Seq<char>,
    short: Seq<char>,
    port: u16,
)
    requires
        !a.contains('{'),
        !b.contains('{'),
    ensures
        c.compose_project_template@ == a + "{short}"@ + b ==> c.project_of(short) == a + short + b,
        c.be_container_template@ == a + "{short}"@ + b ==> c.container_of(short) == a + short + b,
        c.fe_command_template@ == a + "{port}"@ + b ==> c.fe_command_of(port) == a + text::dec(
            port as nat,
        ) + b,
{
    reveal_strlit("{short}");
    reveal_strlit("{port}");
    lemma_filled(a, "{short}"@, b, short);
    lemma_filled(a, "{port}"@, b, text::dec(port as nat));
}

} // verus!
