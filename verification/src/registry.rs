//! The repos that workspaces are made of, as the user configured them.

use vstd::prelude::*;

use crate::github::status::GithubSlug;
use crate::list;
use crate::paths;
use crate::text;

verus! {

#[derive(Debug)]
pub struct Repo {
    pub key: String,
    pub remote_url: String,
    /// The branch the clone is to sit on, where it is not origin's.
    pub default_branch: Option<String>,
    pub default_setup_script: Option<String>,
    pub setup_timeout_secs: Option<u64>,
    /// Files that git does not carry into a worktree and that are copied there.
    pub copy_files: Vec<String>,
    /// Named shell commands, each with its name first.
    pub scripts: Vec<(String, String)>,
    pub managed_docs: bool,
    pub github_slug: Option<GithubSlug>,
}

#[derive(Debug)]
pub struct RepoRegistry {
    /// The directory that every workspace has its own directory in.
    pub worktree_root: String,
    pub repos: Vec<Repo>,
}

impl RepoRegistry {
    /// Where a repo stands in the registry.
    pub open spec fn repo_at(self, key: Seq<char>) -> Option<int> {
        list::first_where(self.repos@, |r: Repo| r.key@ == key)
    }

    /// Where a repo stands in the registry.
    pub fn repo_index(&self, key: &str) -> (r: Option<usize>)
        ensures
            match r {
                Some(i) => i < self.repos@.len() && self.repo_at(key@) == Some(i as int)
                    && self.repos@[i as int].key@ == key@,
                None => self.repo_at(key@) is None,
            },
    {
        let is = |r: &Repo| -> (b: bool)
            ensures
                b == (r.key@ == key@),
            { text::same(&r.key, key) };
        list::position(&self.repos, is, Ghost(|r: Repo| r.key@ == key@))
    }

    /// Whether these are the places of the repos with these keys.
    pub open spec fn are_places(self, places: Seq<usize>, keys: Seq<String>) -> bool {
        places.len() == keys.len() && forall|i: int|
            0 <= i < keys.len() ==> self.repo_at((#[trigger] keys[i])@) == Some(places[i] as int)
    }

    /// The first of the keys that no repo has.
    pub open spec fn first_unknown(self, keys: Seq<String>) -> Option<String> {
        list::first_of(keys, |k: String| self.repo_at(k@) is None)
    }

    /// Where the repos with these keys stand, or the first key that none has.
    pub fn find_all(&self, keys: &[String]) -> (r: Result<Vec<usize>, String>)
        ensures
            match self.first_unknown(keys@) {
                Some(k) => r == Err::<Vec<usize>, String>(k),
                None => r matches Ok(p) && self.are_places(p@, keys@),
            },
    {
        let ghost missing = |k: String| self.repo_at(k@) is None;
        let mut places: Vec<usize> = Vec::new();
        let mut i: usize = 0;
        while i < keys.len()
            invariant
                i <= keys.len(),
                missing == (|k: String| self.repo_at(k@) is None),
                places@.len() == i,
                forall|k: int| 0 <= k < i ==> !missing(#[trigger] keys@[k]),
                forall|k: int|
                    0 <= k < i ==> self.repo_at((#[trigger] keys@[k])@) == Some(places@[k] as int),
            decreases keys.len() - i,
        {
            match self.repo_index(&keys[i]) {
                Some(p) => {
                    places.push(p);
                },
                None => {
                    proof {
                        list::lemma_first_where_is(keys@, missing, i as int);
                    }
                    return Err(keys[i].clone());
                },
            }
            i = i + 1;
        }
        proof {
            list::lemma_first_where_none(keys@, missing);
        }
        Ok(places)
    }

    /// The repo with the given key.
    pub fn find_repo(&self, key: &str) -> (r: Option<&Repo>)
        ensures
            match r {
                Some(repo) => self.repo_at(key@) is Some && *repo
                    == self.repos@[self.repo_at(key@)->0],
                None => self.repo_at(key@) is None,
            },
    {
        match self.repo_index(key) {
            Some(i) => Some(&self.repos[i]),
            None => None,
        }
    }

    /// Where the worktree of a repo goes.
    pub fn plan_worktree_path(&self, workspace_dir: &str, repo_key: &str) -> (r: String)
        ensures
            r@ == paths::join(paths::join(self.worktree_root@, workspace_dir@), repo_key@),
    {
        paths::joined(&paths::joined(&self.worktree_root, workspace_dir), repo_key)
    }
}

/// The directory name for a branch: a separator would make it two directories.
pub open spec fn dir_of_branch(branch: Seq<char>) -> Seq<char> {
    branch.map_values(
        |c: char|
            if c == '/' {
                '-'
            } else {
                c
            },
    )
}

/// The directory name for a branch.
pub fn sanitize_branch_for_dir(branch: &str) -> (r: String)
    ensures
        r@ == dir_of_branch(branch@),
{
    let v = text::chars_of(branch);
    let mut r = String::new();
    let mut i: usize = 0;
    assert(r@ =~= dir_of_branch(v@.take(0)));
    while i < v.len()
        invariant
            i <= v.len(),
            r@ == dir_of_branch(v@.take(i as int)),
        decreases v.len() - i,
    {
        let c: char = if v[i] == '/' {
            '-'
        } else {
            v[i]
        };
        r.push(c);
        i = i + 1;
        assert(dir_of_branch(v@.take(i as int)) =~= dir_of_branch(v@.take(i - 1)).push(c));
    }
    assert(v@.take(i as int) =~= v@);
    r
}

/// A workspace has one directory: the name for its branch is a single segment.
pub proof fn a_branch_has_one_directory(branch: Seq<char>)
    ensures
        !dir_of_branch(branch).contains('/'),
        dir_of_branch(branch).len() == branch.len(),
{
}

/// A key stands for the first repo that has it, and for none where no repo does.
pub proof fn a_key_stands_for_its_first_repo(reg: RepoRegistry, key: String)
    ensures
        match reg.repo_at(key@) {
            Some(i) => 0 <= i < reg.repos@.len() && reg.repos@[i].key@ == key@ && forall|k: int|
                0 <= k < i ==> (#[trigger] reg.repos@[k]).key@ != key@,
            None => forall|k: int|
                0 <= k < reg.repos@.len() ==> (#[trigger] reg.repos@[k]).key@ != key@,
        },
{
    let named = |r: Repo| r.key@ == key@;
    list::lemma_first_where(reg.repos@, named);
    assert(reg.repo_at(key@) == list::first_where(reg.repos@, named));
    match reg.repo_at(key@) {
        Some(i) => {
            assert(named(reg.repos@[i]));
            assert forall|k: int| 0 <= k < i implies (#[trigger] reg.repos@[k]).key@ != key@ by {
                assert(!named(reg.repos@[k]));
            }
        },
        None => {
            assert forall|k: int| 0 <= k < reg.repos@.len() implies (#[trigger] reg.repos@[k]).key@
                != key@ by {
                assert(!named(reg.repos@[k]));
            }
        },
    }
}

/// The first key that no repo has is found, where there is one.
pub proof fn the_first_unknown_key_is_found(reg: RepoRegistry, keys: Seq<String>)
    ensures
        match reg.first_unknown(keys) {
            Some(k) => exists|i: int|
                0 <= i < keys.len() && #[trigger] keys[i] == k && reg.repo_at(k@) is None && forall|
                    j: int,
                |
                    0 <= j < i ==> reg.repo_at((#[trigger] keys[j])@) is Some,
            None => forall|i: int|
                0 <= i < keys.len() ==> reg.repo_at((#[trigger] keys[i])@) is Some,
        },
{
    let missing = |k: String| reg.repo_at(k@) is None;
    list::lemma_first_where(keys, missing);
    assert forall|i: int| 0 <= i < keys.len() implies missing(keys[i]) == (reg.repo_at(
        (#[trigger] keys[i])@,
    ) is None) by {}
    if let Some(i) = list::first_where(keys, missing) {
        assert(keys[i] == reg.first_unknown(keys)->0);
    }
}

/// Only slashes change in the name of a directory: every other character of the branch
/// stays, and a dash stands for each slash.
pub proof fn only_slashes_change(branch: Seq<char>, i: int)
    requires
        0 <= i < branch.len(),
    ensures
        dir_of_branch(branch)[i] == (if branch[i] == '/' {
            '-'
        } else {
            branch[i]
        }),
{
}

/// Places that were found for some keys are those of the first repo with each key.
pub proof fn places_are_of_their_keys(
    reg: RepoRegistry,
    places: Seq<usize>,
    keys: Seq<String>,
    i: int,
)
    requires
        reg.are_places(places, keys),
        0 <= i < keys.len(),
    ensures
        places.len() == keys.len(),
        places[i] < reg.repos@.len(),
        reg.repos@[places[i] as int].key@ == keys[i]@,
        forall|k: int| 0 <= k < places[i] ==> (#[trigger] reg.repos@[k]).key@ != keys[i]@,
{
    assert(reg.repo_at(keys[i]@) == Some(places[i] as int));
    a_key_stands_for_its_first_repo(reg, keys[i]);
}

} // verus!
