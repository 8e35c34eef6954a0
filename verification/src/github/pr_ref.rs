//! References to pull requests, as the user types or pastes them.

use vstd::prelude::*;

use crate::github::status::GithubSlug;
use crate::list;
use crate::text;

verus! {

/// A reference to a pull request. One that only has a number does not say which
/// repository it belongs to.
#[derive(Debug, PartialEq, Eq)]
pub struct PrRef {
    pub slug: Option<GithubSlug>,
    pub number: u32,
}

/// The number that a text stands for, where it is not zero.
pub open spec fn positive(s: Seq<char>) -> Option<nat> {
    match text::parse_uint(s, u32::MAX as nat) {
        Some(n) => if n > 0 {
            Some(n)
        } else {
            None
        },
        None => None,
    }
}

/// The digits that a text starts with.
pub open spec fn leading_digits(s: Seq<char>) -> Seq<char>
    decreases s.len(),
{
    if s.len() > 0 && text::is_digit(s[0]) {
        seq![s[0]] + leading_digits(s.drop_first())
    } else {
        seq![]
    }
}

/// The parts that are not empty.
pub open spec fn solid(parts: Seq<Seq<char>>) -> Seq<Seq<char>>
    decreases parts.len(),
{
    if parts.len() == 0 {
        seq![]
    } else {
        let before = solid(parts.drop_last());
        if parts.last().len() == 0 {
            before
        } else {
            before.push(parts.last())
        }
    }
}

/// The parts of a path between its slashes.
pub open spec fn segments(path: Seq<char>) -> Seq<Seq<char>> {
    solid(text::split(path, '/'))
}

/// Whether a query or a fragment starts in a text.
pub open spec fn ends_path(s: Seq<char>) -> bool {
    s.contains('?') || s.contains('#')
}

/// What follows the scheme of a URL. A `://` in a query or a fragment makes no scheme of
/// what stands before it.
pub open spec fn behind_scheme(s: Seq<char>) -> Seq<char> {
    match text::find(s, "://"@) {
        Some(i) if !ends_path(s.take(i)) => s.skip(i + "://"@.len()),
        _ => s,
    }
}

/// What follows the user of a URL.
pub open spec fn behind_user(s: Seq<char>) -> Seq<char> {
    let i = text::find_char(s, '@');
    if i < s.len() && !s.take(i).contains('/') {
        s.skip(i + 1)
    } else {
        s
    }
}

/// What follows the host of a URL. The first part of the path is a host where it
/// has a dot, and there is nothing behind a host that is not GitHub's.
pub open spec fn behind_host(s: Seq<char>) -> Option<Seq<char>> {
    let rest = behind_user(behind_scheme(s));
    let i = text::find_char(rest, '/');
    if i < rest.len() && rest.take(i).contains('.') {
        let first = rest.take(i);
        let host = first.take(text::find_char(first, ':'));
        if text::ascii_lower(host) == "github.com"@ {
            Some(rest.skip(i + 1))
        } else {
            None
        }
    } else {
        Some(rest)
    }
}

/// The repository that an owner and a name stand for.
pub open spec fn slug_of(owner: Seq<char>, name: Seq<char>) -> Option<(Seq<char>, Seq<char>)> {
    let name = match text::strip_suffix(name, ".git"@) {
        Some(n) => n,
        None => name,
    };
    if owner.len() == 0 || name.len() == 0 {
        None
    } else {
        Some((owner, name))
    }
}

/// The repository in a reference that has nothing else.
pub open spec fn slug_alone(s: Seq<char>) -> Option<(Seq<char>, Seq<char>)> {
    match behind_host(s) {
        Some(path) => if segments(path).len() == 2 {
            slug_of(segments(path)[0], segments(path)[1])
        } else {
            None
        },
        None => None,
    }
}

/// `owner/repo#123`
pub open spec fn short_form(s: Seq<char>) -> Option<((Seq<char>, Seq<char>), nat)> {
    match text::rfind_char(s, '#') {
        Some(i) => match (slug_alone(s.take(i)), positive(leading_digits(s.skip(i + 1)))) {
            (Some(slug), Some(n)) => Some((slug, n)),
            _ => None,
        },
        None => None,
    }
}

/// `owner/repo/pull/123` and whatever may follow, with or without GitHub's host.
pub open spec fn long_form(s: Seq<char>) -> Option<((Seq<char>, Seq<char>), nat)> {
    match behind_host(s) {
        Some(path) => {
            let parts = segments(path);
            if parts.len() >= 4 && (parts[2] == "pull"@ || parts[2] == "pulls"@) {
                match (positive(leading_digits(parts[3])), slug_of(parts[0], parts[1])) {
                    (Some(n), Some(slug)) => Some((slug, n)),
                    _ => None,
                }
            } else {
                None
            }
        },
        None => None,
    }
}

/// What a reference says: a bare number, the short form, or the long form, the
/// first of these that fits.
pub open spec fn reference(input: Seq<char>) -> Option<(Option<(Seq<char>, Seq<char>)>, nat)> {
    let s = text::trim(input);
    let bare = match text::strip_prefix(s, seq!['#']) {
        Some(r) => r,
        None => s,
    };
    if s.len() == 0 {
        None
    } else if let Some(n) = positive(bare) {
        Some((None, n))
    } else if let Some((slug, n)) = short_form(s) {
        Some((Some(slug), n))
    } else if let Some((slug, n)) = long_form(s) {
        Some((Some(slug), n))
    } else {
        None
    }
}

/// What a slug holds.
pub open spec fn slug_view(o: Option<GithubSlug>) -> Option<(Seq<char>, Seq<char>)> {
    match o {
        Some(s) => Some(s@),
        None => None,
    }
}

fn parse_number(s: &str) -> (r: Option<u32>)
    ensures
        match r {
            Some(n) => positive(s@) == Some(n as nat),
            None => positive(s@) is None,
        },
{
    match text::parsed_uint(s, 4294967295) {
        Some(n) => if n > 0 {
            Some(n as u32)
        } else {
            None
        },
        None => None,
    }
}

fn leading_number(s: &str) -> (r: Option<u32>)
    ensures
        match r {
            Some(n) => positive(leading_digits(s@)) == Some(n as nat),
            None => positive(leading_digits(s@)) is None,
        },
{
    let v = text::chars_of(s);
    let mut i: usize = 0;
    assert(v@.take(0) + leading_digits(v@.skip(0)) =~= leading_digits(v@)) by {
        assert(v@.skip(0) =~= v@);
    }
    while i < v.len() && '0' <= v[i] && v[i] <= '9'
        invariant
            i <= v.len(),
            v@.take(i as int) + leading_digits(v@.skip(i as int)) == leading_digits(v@),
        decreases v.len() - i,
    {
        assert(v@.skip(i as int).drop_first() =~= v@.skip(i + 1));
        assert(v@.take(i + 1) =~= v@.take(i as int) + seq![v@[i as int]]);
        assert(v@.take(i + 1) + leading_digits(v@.skip(i + 1)) =~= v@.take(i as int)
            + leading_digits(v@.skip(i as int)));
        i = i + 1;
    }
    assert(leading_digits(v@.skip(i as int)) =~= seq![]);
    let digits = text::piece(&v, 0, i);
    assert(digits@ =~= leading_digits(s@));
    parse_number(&digits)
}

fn path_segments(path: &str) -> (r: Vec<String>)
    ensures
        text::views(r@) == segments(path@),
{
    let parts = text::split_on(path, '/');
    let ghost all = text::views(parts@);
    let mut r: Vec<String> = Vec::new();
    let mut i: usize = 0;
    assert(all.take(0).len() == 0);
    assert(text::views(r@) =~= seq![]);
    while i < parts.len()
        invariant
            i <= parts.len(),
            all == text::views(parts@),
            text::views(r@) == solid(all.take(i as int)),
        decreases parts.len() - i,
    {
        proof {
            assert(all.take(i + 1).drop_last() =~= all.take(i as int));
            assert(all.take(i + 1).last() == parts@[i as int]@);
        }
        if !parts[i].as_str().is_empty() {
            let ghost before = r@;
            r.push(parts[i].clone());
            assert(text::views(r@) =~= text::views(before).push(parts@[i as int]@));
        }
        i = i + 1;
    }
    assert(all.take(i as int) =~= all);
    r
}

fn has_char(v: &[char], upto: usize, c: char) -> (r: bool)
    requires
        upto <= v.len(),
    ensures
        r == v@.take(upto as int).contains(c),
{
    let mut i: usize = 0;
    while i < upto
        invariant
            i <= upto <= v.len(),
            forall|k: int| 0 <= k < i ==> v@[k] != c,
        decreases upto - i,
    {
        if v[i] == c {
            assert(v@.take(upto as int)[i as int] == c);
            return true;
        }
        i = i + 1;
    }
    false
}

/// Drop the scheme, the user and the host.
fn strip_host(input: &str) -> (r: Option<String>)
    ensures
        text::maybe(r) == behind_host(input@),
{
    let v = text::chars_of(input);
    let sep = text::chars_of("://");
    let a: usize = match text::seek_text(&v, &sep) {
        Some(i) => if has_char(&v, i, '?') || has_char(&v, i, '#') {
            0
        } else {
            i + sep.len()
        },
        None => 0,
    };
    let rest = text::piece(&v, a, v.len());
    assert(rest@ =~= behind_scheme(input@));
    let v = text::chars_of(&rest);
    assert(v@.skip(0) =~= v@);
    let at: usize = text::seek(&v, 0, '@');
    let b: usize = if at < v.len() && !has_char(&v, at, '/') {
        at + 1
    } else {
        0
    };
    let rest = text::piece(&v, b, v.len());
    assert(rest@ =~= behind_user(behind_scheme(input@)));
    let v = text::chars_of(&rest);
    assert(v@.skip(0) =~= v@);
    let slash: usize = text::seek(&v, 0, '/');
    if slash < v.len() && has_char(&v, slash, '.') {
        let first = text::piece(&v, 0, slash);
        assert(first@ =~= rest@.take(slash as int));
        let w = text::chars_of(&first);
        assert(w@.skip(0) =~= w@);
        let colon: usize = text::seek(&w, 0, ':');
        let host = text::piece(&w, 0, colon);
        assert(host@ =~= first@.take(colon as int));
        if text::same(&text::ascii_lowered(&host), "github.com") {
            let path = text::piece(&v, slash + 1, v.len());
            assert(path@ =~= rest@.skip(slash + 1));
            return Some(path);
        }
        return None;
    }
    Some(rest)
}

fn mk_slug(owner: &str, name: &str) -> (r: Option<GithubSlug>)
    ensures
        slug_view(r) == slug_of(owner@, name@),
{
    let name = match text::without_suffix(name, ".git") {
        Some(n) => n,
        None => name.to_owned(),
    };
    if owner.is_empty() || name.as_str().is_empty() {
        return None;
    }
    Some(GithubSlug { owner: owner.to_owned(), name })
}

fn slug_only(input: &str) -> (r: Option<GithubSlug>)
    ensures
        slug_view(r) == slug_alone(input@),
{
    let path = match strip_host(input) {
        Some(p) => p,
        None => {
            return None;
        },
    };
    let parts = path_segments(&path);
    proof {
        assert(parts@.len() == segments(path@).len());
        if parts@.len() == 2 {
            assert(segments(path@)[0] == parts@[0]@);
            assert(segments(path@)[1] == parts@[1]@);
        }
    }
    if parts.len() != 2 {
        return None;
    }
    mk_slug(&parts[0], &parts[1])
}

/// Read a reference: `123`, `#123`, `owner/repo#123`, `owner/repo/pull/123`, or a
/// URL of a pull request on GitHub, whatever follows the number.
pub fn parse_pr_reference(input: &str) -> (r: Option<PrRef>)
    ensures
        match reference(input@) {
            Some((slug, n)) => r matches Some(p) && slug_view(p.slug) == slug && p.number == n,
            None => r is None,
        },
{
    let s = text::trimmed(input);
    if s.as_str().is_empty() {
        return None;
    }
    proof {
        reveal_strlit("#");
        assert("#"@ =~= seq!['#']);
    }
    let bare = match text::without_prefix(&s, "#") {
        Some(b) => b,
        None => s.clone(),
    };
    if let Some(number) = parse_number(&bare) {
        return Some(PrRef { slug: None, number });
    }
    let v = text::chars_of(&s);
    if let Some(i) = text::seek_back(&v, '#') {
        let repo = text::piece(&v, 0, i);
        let num = text::piece(&v, i + 1, v.len());
        assert(repo@ =~= s@.take(i as int));
        assert(num@ =~= s@.skip(i + 1));
        if let (Some(slug), Some(number)) = (slug_only(&repo), leading_number(&num)) {
            return Some(PrRef { slug: Some(slug), number });
        }
    }
    assert(short_form(s@) is None);
    let path = match strip_host(&s) {
        Some(p) => p,
        None => {
            return None;
        },
    };
    let parts = path_segments(&path);
    let ghost all = segments(path@);
    assert(parts@.len() == all.len());
    if parts.len() < 4 {
        return None;
    }
    assert(all[0] == parts@[0]@ && all[1] == parts@[1]@ && all[2] == parts@[2]@ && all[3]
        == parts@[3]@);
    if !(text::same(&parts[2], "pull") || text::same(&parts[2], "pulls")) {
        return None;
    }
    match (leading_number(&parts[3]), mk_slug(&parts[0], &parts[1])) {
        (Some(number), Some(slug)) => Some(PrRef { slug: Some(slug), number }),
        _ => None,
    }
}

/// Why a reference belongs to no repo of a workspace.
#[derive(Debug, PartialEq, Eq)]
pub enum AttachError {
    /// The repo that was named is not on GitHub, or not in the workspace.
    NotAGithubRepo { repo_key: String },
    /// The reference is to a repository that the workspace does not have.
    NoRepoForSlug { slug: GithubSlug },
    /// A number, and no repo that it could belong to.
    NoGithubRepos,
    /// A number, and more than one repo that it could belong to.
    Ambiguous,
    /// The reference and the repo that was named disagree.
    SlugMismatch { number: u32, pasted: GithubSlug, repo_key: String, configured: GithubSlug },
}

impl AttachError {
    /// The words that the user reads.
    pub open spec fn text(self) -> Seq<char> {
        match self {
            AttachError::NotAGithubRepo { repo_key } => repo_key@
                + " isn't a GitHub-linked repo in this workspace"@,
            AttachError::NoRepoForSlug { slug } => "no repo in this workspace points at "@
                + slug.owner@ + "/"@ + slug.name@,
            AttachError::NoGithubRepos =>
                "this workspace has no GitHub-linked repos to attach a PR to"@,
            AttachError::Ambiguous =>
                "this workspace has more than one GitHub repo — pick which one the PR belongs to"@,
            AttachError::SlugMismatch { number, pasted, repo_key, configured } => "PR #"@
                + text::dec(number as nat) + " is in "@ + pasted.owner@ + "/"@ + pasted.name@
                + ", but repo "@ + repo_key@ + " points at "@ + configured.owner@ + "/"@
                + configured.name@,
        }
    }

    /// The words that the user reads.
    pub fn message(&self) -> (r: String)
        ensures
            r@ == self.text(),
    {
        match self {
            AttachError::NotAGithubRepo { repo_key } => text::cat(
                repo_key,
                " isn't a GitHub-linked repo in this workspace",
            ),
            AttachError::NoRepoForSlug { slug } => {
                let mut m = text::cat3("no repo in this workspace points at ", &slug.owner, "/");
                m.append(&slug.name);
                m
            },
            AttachError::NoGithubRepos =>
                "this workspace has no GitHub-linked repos to attach a PR to".to_owned(),
            AttachError::Ambiguous =>
                "this workspace has more than one GitHub repo — pick which one the PR belongs to".to_owned(),
            AttachError::SlugMismatch { number, pasted, repo_key, configured } => {
                let mut m = text::cat3("PR #", &text::decimal(*number as u64), " is in ");
                m.append(&pasted.owner);
                m.append("/");
                m.append(&pasted.name);
                m.append(", but repo ");
                m.append(repo_key);
                m.append(" points at ");
                m.append(&configured.owner);
                m.append("/");
                m.append(&configured.name);
                m
            },
        }
    }
}

/// Where the repo with a key stands among the candidates.
pub open spec fn by_key(candidates: Seq<(String, GithubSlug)>, key: Seq<char>) -> Option<int> {
    list::first_where(candidates, |c: (String, GithubSlug)| c.0@ == key)
}

/// Where the repo of a repository stands among the candidates.
pub open spec fn by_slug(
    candidates: Seq<(String, GithubSlug)>,
    slug: (Seq<char>, Seq<char>),
) -> Option<int> {
    list::first_where(candidates, |c: (String, GithubSlug)| c.1@ == slug)
}

/// The repo that a reference belongs to, or why there is none.
pub open spec fn is_target(
    r: Result<(String, GithubSlug), AttachError>,
    candidates: Seq<(String, GithubSlug)>,
    key: Option<Seq<char>>,
    pr: PrRef,
) -> bool {
    let at = match (key, pr.slug) {
        (Some(k), _) => by_key(candidates, k),
        (None, Some(want)) => by_slug(candidates, want@),
        (None, None) => if candidates.len() == 1 {
            Some(0int)
        } else {
            None
        },
    };
    match at {
        Some(i) => match pr.slug {
            Some(want) if want@ != candidates[i].1@ => r matches Err(AttachError::SlugMismatch {
                number,
                pasted,
                repo_key,
                configured,
            }) && number == pr.number && pasted@ == want@ && repo_key@ == candidates[i].0@
                && configured@ == candidates[i].1@,
            _ => r matches Ok((k, s)) && k@ == candidates[i].0@ && s@ == candidates[i].1@,
        },
        None => match (key, pr.slug) {
            (Some(k), _) => r matches Err(AttachError::NotAGithubRepo { repo_key }) && repo_key@
                == k,
            (None, Some(want)) => r matches Err(AttachError::NoRepoForSlug { slug }) && slug@
                == want@,
            (None, None) => if candidates.len() == 0 {
                r matches Err(AttachError::NoGithubRepos)
            } else {
                r matches Err(AttachError::Ambiguous)
            },
        },
    }
}

/// Decide which of a workspace's repos on GitHub a reference belongs to: the one
/// that was named, else the one it names itself, else the only one.
pub fn resolve_attach_target(
    candidates: &[(String, GithubSlug)],
    explicit_repo_key: Option<&str>,
    parsed: &PrRef,
) -> (r: Result<(String, GithubSlug), AttachError>)
    ensures
        is_target(
            r,
            candidates@,
            match explicit_repo_key {
                Some(k) => Some(k@),
                None => None,
            },
            *parsed,
        ),
{
    let at: usize = match (explicit_repo_key, &parsed.slug) {
        (Some(key), _) => {
            let is = |c: &(String, GithubSlug)| -> (b: bool)
                ensures
                    b == (c.0@ == key@),
                { text::same(&c.0, key) };
            let found: Option<usize> = list::position(
                candidates,
                is,
                Ghost(|c: (String, GithubSlug)| c.0@ == key@),
            );
            match found {
                Some(i) => i,
                None => {
                    return Err(AttachError::NotAGithubRepo { repo_key: key.to_owned() });
                },
            }
        },
        (None, Some(want)) => {
            let is = |c: &(String, GithubSlug)| -> (b: bool)
                ensures
                    b == (c.1@ == want@),
                { c.1.same(want) };
            let found: Option<usize> = list::position(
                candidates,
                is,
                Ghost(|c: (String, GithubSlug)| c.1@ == want@),
            );
            match found {
                Some(i) => i,
                None => {
                    return Err(AttachError::NoRepoForSlug { slug: want.clone() });
                },
            }
        },
        (None, None) => if candidates.len() == 1 {
            0
        } else if candidates.len() == 0 {
            return Err(AttachError::NoGithubRepos);
        } else {
            return Err(AttachError::Ambiguous);
        },
    };
    let (key, slug) = &candidates[at];
    if let Some(want) = &parsed.slug {
        if !want.same(slug) {
            return Err(
                AttachError::SlugMismatch {
                    number: parsed.number,
                    pasted: want.clone(),
                    repo_key: key.clone(),
                    configured: slug.clone(),
                },
            );
        }
    }
    Ok((key.clone(), slug.clone()))
}

/// A reference that names its repository never ends up with another one.
pub proof fn a_pasted_url_keeps_its_repository(
    r: Result<(String, GithubSlug), AttachError>,
    candidates: Seq<(String, GithubSlug)>,
    key: Option<Seq<char>>,
    pr: PrRef,
)
    requires
        is_target(r, candidates, key, pr),
        pr.slug is Some,
        r is Ok,
    ensures
        r->Ok_0.1@ == pr.slug->0@,
{
}

/// A character that a plain name is made of.
pub open spec fn name_char(c: char) -> bool {
    text::is_ascii_letter(c) || text::is_digit(c) || c == '-' || c == '_'
}

/// Whether a text is a name of letters, digits, dashes and underscores.
pub open spec fn plain(s: Seq<char>) -> bool {
    s.len() > 0 && forall|i: int| 0 <= i < s.len() ==> name_char(#[trigger] s[i])
}

/// Whether a text can name a repository: as a plain name, but for the dots that it may
/// hold, and not ending as the address of a clone does.
pub open spec fn repo_name(s: Seq<char>) -> bool {
    &&& s.len() > 0
    &&& forall|i: int| 0 <= i < s.len() ==> name_char(#[trigger] s[i]) || s[i] == '.'
    &&& !".git"@.is_suffix_of(s)
}

proof fn lemma_split_first(a: Seq<char>, rest: Seq<char>)
    requires
        forall|i: int| 0 <= i < a.len() ==> #[trigger] a[i] != '/',
    ensures
        text::split(a + seq!['/'] + rest, '/') == seq![a] + text::split(rest, '/'),
{
    let s = a + seq!['/'] + rest;
    assert forall|k: int| 0 <= k < a.len() implies s[k] != '/' by {
        assert(s[k] == a[k]);
    }
    text::lemma_find_char(s, '/', a.len() as int);
    assert(s.take(a.len() as int) =~= a);
    assert(s.skip(a.len() as int + 1) =~= rest);
}

proof fn lemma_solid_first(x: Seq<char>, rest: Seq<Seq<char>>)
    requires
        x.len() > 0,
    ensures
        solid(seq![x] + rest) == seq![x] + solid(rest),
    decreases rest.len(),
{
    let all = seq![x] + rest;
    if rest.len() == 0 {
        assert(all.drop_last() =~= seq![]);
        assert(solid(all.drop_last()) =~= seq![]);
        assert(all.last() == x);
        assert(solid(rest) =~= seq![]);
        assert(solid(all) =~= seq![x]);
        assert(seq![x] + solid(rest) =~= seq![x]);
    } else {
        assert(all.drop_last() =~= seq![x] + rest.drop_last());
        assert(all.last() == rest.last());
        lemma_solid_first(x, rest.drop_last());
        assert(solid(all) =~= seq![x] + solid(rest));
    }
}

proof fn lemma_leading(d: Seq<char>, x: Seq<char>)
    requires
        text::all_digits(d),
        x.len() > 0 ==> !text::is_digit(x[0]),
    ensures
        leading_digits(d + x) == d,
    decreases d.len(),
{
    let s = d + x;
    if d.len() == 0 {
        assert(s =~= x);
        assert(leading_digits(s) =~= d);
    } else {
        assert(text::is_digit(d[0]));
        assert(s.drop_first() =~= d.drop_first() + x);
        assert(text::all_digits(d.drop_first())) by {
            assert forall|i: int| 0 <= i < d.len() - 1 implies text::is_digit(
                #[trigger] d.drop_first()[i],
            ) by {
                assert(d.drop_first()[i] == d[i + 1]);
            }
        }
        lemma_leading(d.drop_first(), x);
        assert(leading_digits(s) =~= d);
    }
}

/// The digits of a number stand for it in a reference.
proof fn lemma_positive(k: nat)
    requires
        0 < k <= u32::MAX,
    ensures
        positive(text::dec(k)) == Some(k),
        text::all_digits(text::dec(k)),
        text::dec(k).len() > 0,
{
    text::lemma_dec_digits(k);
    text::lemma_number_of_dec(k);
    assert(text::is_digit(text::dec(k)[0]));
}

proof fn lemma_no_sign(s: Seq<char>)
    requires
        s.len() > 0,
        s[0] != '#',
    ensures
        !(seq!['#'].is_prefix_of(s)),
{
    if seq!['#'].is_prefix_of(s) {
        assert(s.take(1)[0] == s[0]);
    }
}

/// A text with a slash in it is no number.
proof fn lemma_not_bare(s: Seq<char>, i: int)
    requires
        0 <= i < s.len(),
        s[i] == '/',
        s[0] != '+',
    ensures
        positive(s) is None,
{
    assert(!text::is_digit(s[i]));
}

/// How the path of a pull request is cut into its parts, whatever may follow the number.
proof fn lemma_segments(owner: Seq<char>, name: Seq<char>, d: Seq<char>, tail: Seq<char>)
    requires
        plain(owner),
        repo_name(name),
        d.len() > 0,
        text::all_digits(d),
        tail.len() > 0 ==> !text::is_digit(tail[0]),
    ensures
        ({
            let parts = segments(owner + "/"@ + name + "/pull/"@ + d + tail);
            &&& parts.len() >= 4
            &&& parts[0] == owner
            &&& parts[1] == name
            &&& parts[2] == "pull"@
            &&& leading_digits(parts[3]) == d
        }),
{
    reveal_strlit("/");
    reveal_strlit("/pull/");
    reveal_strlit("pull");
    let path = owner + "/"@ + name + "/pull/"@ + d + tail;
    let last = d + tail;
    let pulled = "pull"@ + seq!['/'] + last;
    let named = name + seq!['/'] + pulled;
    assert(path =~= owner + seq!['/'] + named);
    lemma_split_first(owner, named);
    lemma_split_first(name, pulled);
    lemma_split_first("pull"@, last);
    text::lemma_find_char_bounds(last, '/');
    let i = text::find_char(last, '/');
    if i < d.len() {
        assert(last[i] == d[i]);
        assert(text::is_digit(d[i]));
    }
    let piece = last.take(i);
    assert(piece =~= d + tail.take(i - d.len()));
    lemma_leading(d, tail.take(i - d.len()));
    let more = text::split(last, '/');
    let behind = if i < last.len() {
        text::split(last.skip(i + 1), '/')
    } else {
        seq![]
    };
    if i < last.len() {
        assert(more == seq![piece] + behind);
    } else {
        assert(piece =~= last);
        assert(more =~= seq![piece] + behind);
    }
    lemma_solid_first(piece, behind);
    lemma_solid_first("pull"@, more);
    lemma_solid_first(name, seq!["pull"@] + more);
    lemma_solid_first(owner, seq![name] + (seq!["pull"@] + more));
    let parts = segments(path);
    assert(parts == seq![owner] + (seq![name] + (seq!["pull"@] + (seq![piece] + solid(behind)))));
    assert(parts[0] == owner);
    assert(parts[1] == name);
    assert(parts[2] == "pull"@);
    assert(parts[3] == piece);
}

/// A repository's name is not cut short as the address of a clone would be.
proof fn lemma_slug(owner: Seq<char>, name: Seq<char>)
    requires
        plain(owner),
        repo_name(name),
    ensures
        slug_of(owner, name) == Some((owner, name)),
{
}

/// Whether a scheme is taken off a text.
pub open spec fn has_scheme(s: Seq<char>) -> bool {
    text::find(s, "://"@) matches Some(i) && !ends_path(s.take(i))
}

/// The first part of a path stays where it is, where no scheme is taken off: no user is
/// taken for it either.
proof fn lemma_first_part(a: Seq<char>, rest: Seq<char>)
    requires
        forall|i: int| 0 <= i < a.len() ==> #[trigger] a[i] != ':' && a[i] != '@' && a[i] != '/',
        !has_scheme(a + seq!['/'] + rest),
    ensures
        behind_user(behind_scheme(a + seq!['/'] + rest)) == a + seq!['/'] + rest,
        text::find_char(a + seq!['/'] + rest, '/') == a.len(),
{
    let s = a + seq!['/'] + rest;
    assert(behind_scheme(s) == s);
    lemma_no_user(a, rest);
}

proof fn lemma_no_user(a: Seq<char>, rest: Seq<char>)
    requires
        forall|i: int| 0 <= i < a.len() ==> #[trigger] a[i] != ':' && a[i] != '@' && a[i] != '/',
    ensures
        behind_user(a + seq!['/'] + rest) == a + seq!['/'] + rest,
        text::find_char(a + seq!['/'] + rest, '/') == a.len(),
{
    let s = a + seq!['/'] + rest;
    let n: int = a.len() as int;
    assert forall|i: int| 0 <= i < n implies #[trigger] s[i] != ':' && s[i] != '@' && s[i]
        != '/' by {
        assert(s[i] == a[i]);
    }
    assert(s[n] == '/');
    text::lemma_find_char_bounds(s, '@');
    let at = text::find_char(s, '@');
    if at < s.len() {
        assert(at > n);
        assert(s.take(at)[n] == '/');
        assert(s.take(at).contains('/'));
    }
    text::lemma_find_char(s, '/', n);
}

/// Where the text that may follow has no scheme in it, the whole has none.
proof fn lemma_no_scheme(a: Seq<char>, tail: Seq<char>)
    requires
        forall|i: int| 0 <= i < a.len() ==> #[trigger] a[i] != ':',
        !has_scheme(tail),
    ensures
        !has_scheme(a + tail),
{
    reveal_strlit("://");
    let s = a + tail;
    let n: int = a.len() as int;
    text::lemma_find_holds(s, "://"@);
    if let Some(i) = text::find(s, "://"@) {
        assert(s.subrange(i, i + 3)[0] == s[i]);
        if i < n {
            assert(s[i] == a[i]);
        }
        assert(tail.subrange(i - n, i - n + 3) =~= s.subrange(i, i + 3));
        assert(text::occurs_at(tail, "://"@, i - n));
        text::lemma_find_some(tail, "://"@, i - n);
        let j = text::find(tail, "://"@)->0;
        assert(ends_path(tail.take(j)));
        let c = if tail.take(j).contains('?') {
            '?'
        } else {
            '#'
        };
        let k = choose|k: int| 0 <= k < j && tail.take(j)[k] == c;
        assert(s.take(i)[n + k] == c);
        assert(s.take(i).contains(c));
    }
}

/// The beginning of a text that has no scheme has none.
proof fn lemma_beginning_no_scheme(s: Seq<char>, n: int)
    requires
        !has_scheme(s),
        0 <= n <= s.len(),
    ensures
        !has_scheme(s.take(n)),
{
    reveal_strlit("://");
    let t = s.take(n);
    text::lemma_find_holds(t, "://"@);
    if let Some(j) = text::find(t, "://"@) {
        assert(s.subrange(j, j + 3) =~= t.subrange(j, j + 3));
        assert forall|k: int| 0 <= k < j implies !text::occurs_at(s, "://"@, k) by {
            if text::occurs_at(s, "://"@, k) {
                assert(t.subrange(k, k + 3) =~= s.subrange(k, k + 3));
                text::lemma_find_some(t, "://"@, k);
            }
        }
        text::lemma_find(s, "://"@, j);
        assert(s.take(j) =~= t.take(j));
    }
}

/// A path that starts with a plain name has no host in front of it.
proof fn lemma_no_host(owner: Seq<char>, rest: Seq<char>)
    requires
        plain(owner),
        !has_scheme(owner + seq!['/'] + rest),
    ensures
        behind_host(owner + seq!['/'] + rest) == Some(owner + seq!['/'] + rest),
{
    assert forall|i: int| 0 <= i < owner.len() implies #[trigger] owner[i] != ':' && owner[i] != '@'
        && owner[i] != '/' by {
        assert(name_char(owner[i]));
    }
    lemma_first_part(owner, rest);
    let s = owner + seq!['/'] + rest;
    assert(s.take(owner.len() as int) =~= owner);
    if owner.contains('.') {
        let i = choose|i: int| 0 <= i < owner.len() && owner[i] == '.';
        assert(name_char(owner[i]));
    }
}

/// White space around a reference is ignored.
pub proof fn white_space_around_a_reference_is_ignored(s: Seq<char>)
    ensures
        reference(s) == reference(text::trim(s)),
{
    text::lemma_trim_again(s);
}

/// A reference that is understood has a number above zero, and if it names a
/// repository, both its owner and its name.
pub proof fn a_reference_names_something(s: Seq<char>)
    ensures
        reference(s) matches Some((slug, n)) ==> 0 < n <= u32::MAX && (slug matches Some((o, m))
            ==> o.len() > 0 && m.len() > 0),
{
}

/// A number reads back, with and without the sign in front of it, and names no
/// repository.
pub proof fn a_number_reads_back(k: nat)
    requires
        0 < k <= u32::MAX,
    ensures
        reference(text::dec(k)) == Some((None::<(Seq<char>, Seq<char>)>, k)),
        reference("#"@ + text::dec(k)) == Some((None::<(Seq<char>, Seq<char>)>, k)),
{
    reveal_strlit("#");
    let d = text::dec(k);
    lemma_positive(k);
    assert(text::is_digit(d[0]) && text::is_digit(d[d.len() - 1]));
    assert(text::trim(d) == d);
    let s = "#"@ + d;
    assert(s[0] == '#' && s.last() == d.last());
    assert(text::trim(s) == s);
    assert(s.take(1) =~= seq!['#']);
    assert(s.skip(1) =~= d);
    lemma_no_sign(d);
}

/// The short form of a reference reads back as the repository and the number that it was
/// made of.
pub proof fn a_repository_and_number_read_back(owner: Seq<char>, name: Seq<char>, k: nat)
    requires
        plain(owner),
        repo_name(name),
        0 < k <= u32::MAX,
    ensures
        reference(owner + "/"@ + name + "#"@ + text::dec(k)) == Some((Some((owner, name)), k)),
{
    reveal_strlit("/");
    reveal_strlit("#");
    let d = text::dec(k);
    lemma_positive(k);
    lemma_slug(owner, name);
    assert(text::is_digit(d[d.len() - 1]));
    assert(name_char(owner[0]));

    let s = owner + "/"@ + name + "#"@ + d;
    let i: int = owner.len() as int + 1 + name.len();
    assert(s[0] == owner[0] && s.last() == d.last());
    assert(text::trim(s) == s);
    lemma_no_sign(s);
    lemma_not_bare(s, owner.len() as int);
    assert(s[i] == '#');
    text::lemma_rfind_char(s, '#');
    assert(text::rfind_char(s, '#') == Some(i)) by {
        assert(s.contains(s[i]));
        let j = text::rfind_char(s, '#')->0;
        if j > i {
            assert(s[j] == d[j - i - 1]);
            assert(text::is_digit(d[j - i - 1]));
        }
    }
    assert(s.skip(i + 1) =~= d + Seq::<char>::empty());
    lemma_leading(d, Seq::<char>::empty());
    let repo = s.take(i);
    assert(repo =~= owner + seq!['/'] + name);
    assert forall|j: int| 0 <= j < name.len() implies #[trigger] name[j] != '/' by {
        assert(name_char(name[j]) || name[j] == '.');
    }
    assert forall|j: int| 0 <= j < owner.len() implies #[trigger] owner[j] != '/' by {
        assert(name_char(owner[j]));
    }
    assert forall|j: int| 0 <= j < repo.len() implies #[trigger] repo[j] != ':' by {
        if j < owner.len() {
            assert(repo[j] == owner[j] && name_char(owner[j]));
        } else if j > owner.len() {
            assert(repo[j] == name[j - owner.len() - 1]);
            assert(name_char(name[j - owner.len() - 1]) || name[j - owner.len() - 1] == '.');
        }
    }
    lemma_no_scheme_at_all(repo);
    lemma_no_host(owner, name);
    lemma_split_first(owner, name);
    text::lemma_find_char(name, '/', name.len() as int);
    assert(text::split(name, '/') == seq![name]);
    lemma_solid_first(owner, seq![name]);
    let none: Seq<Seq<char>> = seq![];
    assert(seq![name] + none =~= seq![name]);
    lemma_solid_first(name, none);
    assert(solid(none) =~= none);
    assert(segments(repo) =~= seq![owner, name]);
    assert(slug_alone(repo) == Some((owner, name)));
}

proof fn lemma_no_scheme_at_all(s: Seq<char>)
    requires
        forall|i: int| 0 <= i < s.len() ==> #[trigger] s[i] != ':',
    ensures
        !has_scheme(s),
{
    reveal_strlit("://");
    text::lemma_find_holds(s, "://"@);
    if let Some(i) = text::find(s, "://"@) {
        assert(s.subrange(i, i + 3)[0] == s[i]);
    }
}

/// What follows GitHub's host.
proof fn lemma_behind_github(s: Seq<char>, path: Seq<char>)
    requires
        behind_scheme(s) == "github.com"@ + seq!['/'] + path,
    ensures
        behind_host(s) == Some(path),
{
    reveal_strlit("github.com");
    let host = "github.com"@;
    let rest = host + seq!['/'] + path;
    assert forall|i: int| 0 <= i < host.len() implies #[trigger] host[i] != ':' && host[i] != '@'
        && host[i] != '/' by {}
    lemma_no_user(host, path);
    assert(rest.take(10) =~= host);
    assert(host[6] == '.');
    assert(host.contains('.'));
    text::lemma_find_char(host, ':', 10);
    assert(host.take(10) =~= host);
    assert(text::ascii_lower(host) =~= host);
    assert(rest.skip(11) =~= path);
}

/// A scheme is taken off, whatever follows.
proof fn lemma_https(path: Seq<char>)
    ensures
        behind_host("https://github.com/"@ + path) == Some(path),
{
    reveal_strlit("https://github.com/");
    reveal_strlit("github.com");
    reveal_strlit("://");
    let s = "https://github.com/"@ + path;
    assert(text::occurs_at(s, "://"@, 5)) by {
        assert(s.subrange(5, 8) =~= "://"@);
    }
    assert forall|k: int| 0 <= k < 5 implies !text::occurs_at(s, "://"@, k) by {
        if text::occurs_at(s, "://"@, k) {
            assert(s.subrange(k, k + 3)[0] == s[k]);
        }
    }
    text::lemma_find(s, "://"@, 5);
    assert forall|k: int| 0 <= k < 5 implies s.take(5)[k] != '?' && s.take(5)[k] != '#' by {
        assert(s[k] == "https://github.com/"@[k]);
    }
    assert(!ends_path(s.take(5)));
    assert(s.skip(8) =~= "github.com"@ + seq!['/'] + path);
    lemma_behind_github(s, path);
}

/// What may stand in front of the path of a pull request.
pub open spec fn front(s: Seq<char>) -> bool {
    s == ""@ || s == "github.com/"@ || s == "https://github.com/"@
}

/// The path of a pull request and its address on GitHub, with and without the scheme,
/// read back as the repository and the number that they were made of, whatever page,
/// query or fragment follows. Where they have no scheme, that page must not look as if
/// it were one.
pub proof fn an_address_reads_back(
    start: Seq<char>,
    owner: Seq<char>,
    name: Seq<char>,
    k: nat,
    tail: Seq<char>,
)
    requires
        front(start),
        plain(owner),
        repo_name(name),
        0 < k <= u32::MAX,
        tail.len() > 0 ==> (tail[0] == '/' || tail[0] == '?' || tail[0] == '#') && !text::is_white(
            tail.last(),
        ),
        start == "https://github.com/"@ || !has_scheme(tail),
    ensures
        reference(start + owner + "/"@ + name + "/pull/"@ + text::dec(k) + tail) == Some(
            (Some((owner, name)), k),
        ),
{
    let d = text::dec(k);
    lemma_positive(k);
    lemma_slug(owner, name);
    let s = start + owner + "/"@ + name + "/pull/"@ + d + tail;
    lemma_address_parts(start, owner, name, d, tail);
    lemma_address_is_long(start, owner, name, d, tail);
    assert(short_form(s) is None);
    assert(long_form(s) == Some(((owner, name), k)));
}

/// An address is trimmed, and neither a bare number nor a short form.
proof fn lemma_address_is_long(
    start: Seq<char>,
    owner: Seq<char>,
    name: Seq<char>,
    d: Seq<char>,
    tail: Seq<char>,
)
    requires
        front(start),
        plain(owner),
        repo_name(name),
        d.len() > 0,
        text::all_digits(d),
        tail.len() > 0 ==> !text::is_digit(tail[0]) && !text::is_white(tail.last()),
        start == "https://github.com/"@ || !has_scheme(tail),
    ensures
        ({
            let s = start + owner + "/"@ + name + "/pull/"@ + d + tail;
            &&& s.len() > 0
            &&& text::trim(s) == s
            &&& text::strip_prefix(s, seq!['#']) is None
            &&& positive(s) is None
            &&& short_form(s) is None
        }),
{
    reveal_strlit("/");
    reveal_strlit("/pull/");
    let s = start + owner + "/"@ + name + "/pull/"@ + d + tail;
    let slash: int = start.len() as int + owner.len();
    assert(s[slash] == '/');
    lemma_first_char(start, owner + "/"@ + name + "/pull/"@ + d + tail);
    assert(start + (owner + "/"@ + name + "/pull/"@ + d + tail) =~= s);
    assert(s.last() == (if tail.len() > 0 {
        tail.last()
    } else {
        d.last()
    }));
    assert(text::is_digit(d[d.len() - 1]));
    assert(text::trim(s) == s);
    lemma_no_sign(s);
    lemma_not_bare(s, slash);
    text::lemma_rfind_char(s, '#');
    if let Some(i) = text::rfind_char(s, '#') {
        let before: int = s.len() - tail.len();
        if i < before {
            lemma_before_tail(start, owner, name, d, i);
            assert(s[i] == (start + owner + "/"@ + name + "/pull/"@ + d)[i]);
        }
        let cut = tail.take(i - before);
        if cut.len() > 0 {
            assert(cut[0] == tail[0]);
        }
        assert(s.take(i) =~= start + owner + "/"@ + name + "/pull/"@ + d + cut);
        if !has_scheme(tail) {
            lemma_beginning_no_scheme(tail, i - before);
        }
        lemma_address_parts(start, owner, name, d, cut);
        assert(slug_alone(s.take(i)) is None);
    }
}

/// The parts of an address behind whatever stands in front of its path.
proof fn lemma_address_parts(
    start: Seq<char>,
    owner: Seq<char>,
    name: Seq<char>,
    d: Seq<char>,
    tail: Seq<char>,
)
    requires
        front(start),
        plain(owner),
        repo_name(name),
        d.len() > 0,
        text::all_digits(d),
        tail.len() > 0 ==> !text::is_digit(tail[0]),
        start == "https://github.com/"@ || !has_scheme(tail),
    ensures
        behind_host(start + owner + "/"@ + name + "/pull/"@ + d + tail) matches Some(path) && ({
            let parts = segments(path);
            &&& parts.len() >= 4
            &&& parts[0] == owner
            &&& parts[1] == name
            &&& parts[2] == "pull"@
            &&& leading_digits(parts[3]) == d
        }),
{
    reveal_strlit("/");
    let path = owner + "/"@ + name + "/pull/"@ + d + tail;
    let rest = name + "/pull/"@ + d + tail;
    assert(owner + seq!['/'] + rest =~= path);
    assert(start + owner + "/"@ + name + "/pull/"@ + d + tail =~= start + path);
    if !has_scheme(tail) && start != "https://github.com/"@ {
        let a = start + owner + "/"@ + name + "/pull/"@ + d;
        assert forall|i: int| 0 <= i < a.len() implies #[trigger] a[i] != ':' by {
            lemma_before_tail(start, owner, name, d, i);
        }
        lemma_no_scheme(a, tail);
        assert(a + tail =~= start + path);
    }
    lemma_behind_front(start, owner, rest);
    lemma_segments(owner, name, d, tail);
}

proof fn lemma_first_char(start: Seq<char>, path: Seq<char>)
    requires
        front(start),
        path.len() > 0,
        name_char(path[0]),
    ensures
        name_char((start + path)[0]),
{
    reveal_strlit("");
    reveal_strlit("github.com/");
    reveal_strlit("https://github.com/");
    let s = start + path;
    if start.len() == 0 {
        assert(s[0] == path[0]);
    } else {
        assert(s[0] == start[0]);
    }
}

proof fn lemma_behind_front(start: Seq<char>, owner: Seq<char>, rest: Seq<char>)
    requires
        front(start),
        plain(owner),
        start == "https://github.com/"@ || !has_scheme(start + (owner + seq!['/'] + rest)),
    ensures
        behind_host(start + (owner + seq!['/'] + rest)) == Some(owner + seq!['/'] + rest),
{
    reveal_strlit("");
    reveal_strlit("github.com/");
    reveal_strlit("github.com");
    reveal_strlit("https://github.com/");
    let path = owner + seq!['/'] + rest;
    if start.len() == 0 {
        assert(start + path =~= path);
        lemma_no_host(owner, rest);
    } else if start == "https://github.com/"@ {
        lemma_https(path);
    } else {
        assert(start + path =~= "github.com"@ + seq!['/'] + path);
        lemma_behind_github(start + path, path);
    }
}

proof fn lemma_before_tail(
    start: Seq<char>,
    owner: Seq<char>,
    name: Seq<char>,
    d: Seq<char>,
    i: int,
)
    requires
        front(start),
        plain(owner),
        repo_name(name),
        text::all_digits(d),
        0 <= i < (start + owner + "/"@ + name + "/pull/"@ + d).len(),
    ensures
        (start + owner + "/"@ + name + "/pull/"@ + d)[i] != '#',
        start != "https://github.com/"@ ==> (start + owner + "/"@ + name + "/pull/"@ + d)[i] != ':',
{
    reveal_strlit("");
    reveal_strlit("github.com/");
    reveal_strlit("https://github.com/");
    reveal_strlit("/");
    reveal_strlit("/pull/");
    let s = start + owner + "/"@ + name + "/pull/"@ + d;
    let p: int = start.len() as int;
    let q: int = p + owner.len() + 1;
    let r: int = q + name.len() + 6;
    if i < p {
        assert(s[i] == start[i]);
    } else if i < q - 1 {
        assert(s[i] == owner[i - p]);
        assert(name_char(owner[i - p]));
    } else if i >= q && i < r - 6 {
        assert(s[i] == name[i - q]);
    } else if i >= r {
        assert(s[i] == d[i - r]);
        assert(text::is_digit(d[i - r]));
    } else if i >= r - 6 {
        assert(s[i] == "/pull/"@[i - (r - 6)]);
    }
}

proof fn lemma_web(host: Seq<char>, path: Seq<char>)
    requires
        forall|i: int| 0 <= i < host.len() ==> #[trigger] host[i] != ':' && host[i] != '@'
            && host[i] != '/',
        host.contains('.'),
    ensures
        behind_host("https://"@ + host + "/"@ + path) == (if text::ascii_lower(host)
            == "github.com"@ {
            Some(path)
        } else {
            None
        }),
{
    reveal_strlit("https://");
    reveal_strlit("/");
    reveal_strlit("://");
    let s = "https://"@ + host + "/"@ + path;
    assert(text::occurs_at(s, "://"@, 5)) by {
        assert(s.subrange(5, 8) =~= "://"@);
    }
    assert forall|k: int| 0 <= k < 5 implies !text::occurs_at(s, "://"@, k) by {
        if text::occurs_at(s, "://"@, k) {
            assert(s.subrange(k, k + 3)[0] == s[k]);
        }
    }
    text::lemma_find(s, "://"@, 5);
    assert forall|k: int| 0 <= k < 5 implies s.take(5)[k] != '?' && s.take(5)[k] != '#' by {
        assert(s[k] == "https://"@[k]);
    }
    assert(!ends_path(s.take(5)));
    let rest = host + seq!['/'] + path;
    assert(s.skip(8) =~= rest);
    lemma_no_user(host, path);
    let n = host.len() as int;
    assert(rest.take(n) =~= host);
    text::lemma_find_char(host, ':', n);
    assert(host.take(n) =~= host);
    assert(rest.skip(n + 1) =~= path);
}

proof fn lemma_web_reads(host: Seq<char>, path: Seq<char>)
    requires
        path.len() > 0,
        !host.contains('#'),
        !path.contains('#'),
        !text::is_white(path.last()),
    ensures
        ({
            let s = "https://"@ + host + "/"@ + path;
            reference(s) == (match long_form(s) {
                Some((slug, n)) => Some((Some(slug), n)),
                None => None,
            })
        }),
{
    reveal_strlit("https://");
    reveal_strlit("/");
    let s = "https://"@ + host + "/"@ + path;
    let e: Seq<char> = seq![];
    assert(s[0] == 'h');
    assert(s.last() == path.last());
    text::trimming_takes_off_white_space(e, s, e);
    assert(e + s + e =~= s);
    lemma_no_sign(s);
    assert(s[6] == '/');
    lemma_not_bare(s, 6);
    assert forall|k: int| 0 <= k < s.len() implies s[k] != '#' by {
        if 8 <= k < 8 + host.len() {
            assert(host.contains(host[k - 8]));
        } else if k > 8 + host.len() {
            assert(path.contains(path[k - 9 - host.len()]));
        }
    }
    text::lemma_rfind_char(s, '#');
    if let Some(i) = text::rfind_char(s, '#') {
        assert(s[i] == '#');
    }
}

/// An address on another host is no reference, whatever stands behind the host; one on
/// GitHub's is the same reference, however its letters are written.
pub proof fn only_one_host_is_meant(host: Seq<char>, path: Seq<char>)
    requires
        forall|i: int|
            0 <= i < host.len() ==> #[trigger] host[i] != ':' && host[i] != '@' && host[i] != '/'
                && host[i] != '#',
        host.contains('.'),
        path.len() > 0,
        !path.contains('#'),
        !text::is_white(path.last()),
    ensures
        text::ascii_lower(host) != "github.com"@ ==> reference("https://"@ + host + "/"@ + path)
            is None,
        text::ascii_lower(host) == "github.com"@ ==> reference("https://"@ + host + "/"@ + path)
            == reference("https://github.com/"@ + path),
{
    reveal_strlit("github.com");
    reveal_strlit("https://");
    reveal_strlit("https://github.com/");
    reveal_strlit("/");
    let own = "github.com"@;
    lemma_web(host, path);
    lemma_web_reads(host, path);
    assert(own[6] == '.');
    assert(own.contains('.'));
    lemma_web(own, path);
    lemma_web_reads(own, path);
    assert(text::ascii_lower(own) =~= own);
    assert("https://"@ + own + "/"@ + path =~= "https://github.com/"@ + path);
}

proof fn lemma_solid_all(parts: Seq<Seq<char>>)
    requires
        forall|i: int| 0 <= i < parts.len() ==> (#[trigger] parts[i]).len() > 0,
    ensures
        solid(parts) == parts,
    decreases parts.len(),
{
    if parts.len() > 0 {
        let rest = parts.drop_last();
        assert forall|i: int| 0 <= i < rest.len() implies (#[trigger] rest[i]).len() > 0 by {
            assert(rest[i] == parts[i]);
        }
        lemma_solid_all(rest);
        assert(parts[parts.len() - 1].len() > 0);
        assert(solid(parts) =~= parts);
    } else {
        assert(solid(parts) =~= parts);
    }
}

/// A page of a repository is a reference where it is that of a pull request, under
/// either of two names, and no other page is: not an issue, not a file.
pub proof fn only_a_pull_request_is_meant(
    owner: Seq<char>,
    name: Seq<char>,
    kind: Seq<char>,
    k: nat,
)
    requires
        plain(owner),
        repo_name(name),
        kind.len() > 0 && !kind.contains('/') && !kind.contains('#'),
        0 < k <= u32::MAX,
    ensures
        reference(
            "https://github.com/"@ + text::join(
                seq![owner, name, kind, text::dec(k)],
                seq!['/'],
            ),
        ) == (if kind == "pull"@ || kind == "pulls"@ {
            Some((Some((owner, name)), k))
        } else {
            None
        }),
{
    reveal_strlit("github.com");
    reveal_strlit("https://");
    reveal_strlit("https://github.com/");
    reveal_strlit("/");
    let d = text::dec(k);
    let parts = seq![owner, name, kind, d];
    let path = text::join(parts, seq!['/']);
    let s = "https://github.com/"@ + path;
    text::lemma_dec_digits(k);
    assert(text::is_digit(d[d.len() - 1]));
    lemma_page(owner, name, kind, d);
    let own = "github.com"@;
    assert(!own.contains('#'));
    lemma_web_reads(own, path);
    assert("https://"@ + own + "/"@ + path =~= s);
    lemma_https(path);
    lemma_leading(d, seq![]);
    assert(d + Seq::<char>::empty() =~= d);
    lemma_positive(k);
    lemma_slug(owner, name);
}

proof fn lemma_page(owner: Seq<char>, name: Seq<char>, kind: Seq<char>, d: Seq<char>)
    requires
        plain(owner),
        repo_name(name),
        kind.len() > 0 && !kind.contains('/') && !kind.contains('#'),
        d.len() > 0 && text::all_digits(d),
    ensures
        ({
            let path = text::join(seq![owner, name, kind, d], seq!['/']);
            &&& segments(path) == seq![owner, name, kind, d]
            &&& !path.contains('#')
            &&& path.len() > 0 && path.last() == d.last()
        }),
{
    let parts = seq![owner, name, kind, d];
    let path = text::join(parts, seq!['/']);
    assert(!owner.contains('/') && !owner.contains('#')) by {
        assert forall|i: int| 0 <= i < owner.len() implies owner[i] != '/' && owner[i] != '#' by {
            assert(name_char(owner[i]));
        }
    }
    assert(!name.contains('/') && !name.contains('#')) by {
        assert forall|i: int| 0 <= i < name.len() implies name[i] != '/' && name[i] != '#' by {
            assert(name_char(name[i]) || name[i] == '.');
        }
    }
    assert(!d.contains('/') && !d.contains('#')) by {
        assert forall|i: int| 0 <= i < d.len() implies d[i] != '/' && d[i] != '#' by {
            assert(text::is_digit(d[i]));
        }
    }
    assert(parts[0] == owner && parts[1] == name && parts[2] == kind && parts[3] == d);
    assert forall|i: int| 0 <= i < parts.len() implies !(#[trigger] parts[i]).contains('/')
        && parts[i].len() > 0 by {
        assert(i == 0 || i == 1 || i == 2 || i == 3);
    }
    text::joined_parts_come_apart(parts, '/');
    lemma_solid_all(parts);
    lemma_four(owner, name, kind, d);
    lemma_no_hash(owner, name);
    lemma_no_hash(owner + seq!['/'] + name, kind);
    lemma_no_hash(owner + seq!['/'] + name + seq!['/'] + kind, d);
}

proof fn lemma_no_hash(a: Seq<char>, b: Seq<char>)
    requires
        !a.contains('#'),
        !b.contains('#'),
    ensures
        !(a + seq!['/'] + b).contains('#'),
{
    let s = a + seq!['/'] + b;
    assert forall|i: int| 0 <= i < s.len() implies s[i] != '#' by {
        if i < a.len() {
            assert(a.contains(a[i]));
        } else if i > a.len() {
            assert(b.contains(b[i - a.len() - 1]));
        }
    }
}

proof fn lemma_four(a: Seq<char>, b: Seq<char>, c: Seq<char>, d: Seq<char>)
    ensures
        text::join(seq![a, b, c, d], seq!['/']) == a + seq!['/'] + b + seq!['/'] + c + seq!['/']
            + d,
{
    let sep = seq!['/'];
    let four = seq![a, b, c, d];
    assert(four.drop_last() =~= seq![a, b, c]);
    assert(seq![a, b, c].drop_last() =~= seq![a, b]);
    assert(seq![a, b].drop_last() =~= seq![a]);
    assert(text::join(seq![a], sep) == a);
    assert(text::join(seq![a, b], sep) == a + sep + b);
    assert(text::join(seq![a, b, c], sep) == a + sep + b + sep + c);
}

/// A pull request goes to the repo that is named, where that is among the candidates and
/// the address agrees with it; one whose repo is not named goes to the one that its
/// address is in; one with neither goes to the only candidate that there is.
pub proof fn where_a_pull_request_goes(
    r: Result<(String, GithubSlug), AttachError>,
    candidates: Seq<(String, GithubSlug)>,
    key: Option<Seq<char>>,
    pr: PrRef,
    i: int,
)
    requires
        is_target(r, candidates, key, pr),
        0 <= i < candidates.len(),
    ensures
        key is Some && candidates[i].0@ == key->0 && (forall|k: int|
            0 <= k < i ==> (#[trigger] candidates[k]).0@ != key->0) ==> (if pr.slug is None
            || pr.slug->0@ == candidates[i].1@ {
            r is Ok && r->Ok_0.0@ == candidates[i].0@ && r->Ok_0.1@ == candidates[i].1@
        } else {
            r is Err && r->Err_0 is SlugMismatch
        }),
        key is None && pr.slug is Some && candidates[i].1@ == pr.slug->0@ && (forall|k: int|
            0 <= k < i ==> (#[trigger] candidates[k]).1@ != pr.slug->0@) ==> r is Ok && r->Ok_0.0@
            == candidates[i].0@ && r->Ok_0.1@ == candidates[i].1@,
        key is None && pr.slug is None && candidates.len() == 1 ==> r is Ok && r->Ok_0.0@
            == candidates[0].0@ && r->Ok_0.1@ == candidates[0].1@,
        key is None && pr.slug is None && candidates.len() > 1 ==> r is Err && r->Err_0
            is Ambiguous,
{
    if key is Some && candidates[i].0@ == key->0 && (forall|k: int|
        0 <= k < i ==> (#[trigger] candidates[k]).0@ != key->0) {
        lemma_by_key(candidates, key->0, i);
    }
    if pr.slug is Some && candidates[i].1@ == pr.slug->0@ && (forall|k: int|
        0 <= k < i ==> (#[trigger] candidates[k]).1@ != pr.slug->0@) {
        lemma_by_slug(candidates, pr.slug->0@, i);
    }
}

proof fn lemma_by_key(candidates: Seq<(String, GithubSlug)>, key: Seq<char>, i: int)
    requires
        0 <= i <= candidates.len(),
        i < candidates.len() ==> candidates[i].0@ == key,
        forall|k: int| 0 <= k < i ==> (#[trigger] candidates[k]).0@ != key,
    ensures
        by_key(candidates, key) == (if i < candidates.len() {
            Some(i)
        } else {
            None
        }),
    decreases candidates.len(),
{
    if candidates.len() > 0 && i > 0 {
        assert(candidates[0].0@ != key);
        let rest = candidates.drop_first();
        assert forall|k: int| 0 <= k < i - 1 implies (#[trigger] rest[k]).0@ != key by {
            assert(rest[k] == candidates[k + 1]);
        }
        lemma_by_key(rest, key, i - 1);
    }
}

proof fn lemma_by_slug(
    candidates: Seq<(String, GithubSlug)>,
    slug: (Seq<char>, Seq<char>),
    i: int,
)
    requires
        0 <= i <= candidates.len(),
        i < candidates.len() ==> candidates[i].1@ == slug,
        forall|k: int| 0 <= k < i ==> (#[trigger] candidates[k]).1@ != slug,
    ensures
        by_slug(candidates, slug) == (if i < candidates.len() {
            Some(i)
        } else {
            None
        }),
    decreases candidates.len(),
{
    if candidates.len() > 0 && i > 0 {
        assert(candidates[0].1@ != slug);
        let rest = candidates.drop_first();
        assert forall|k: int| 0 <= k < i - 1 implies (#[trigger] rest[k]).1@ != slug by {
            assert(rest[k] == candidates[k + 1]);
        }
        lemma_by_slug(rest, slug, i - 1);
    }
}

/// A pull request goes nowhere where the named repo is no candidate, where no candidate
/// is the repository of its address, and where there is no candidate at all.
pub proof fn when_a_pull_request_goes_nowhere(
    r: Result<(String, GithubSlug), AttachError>,
    candidates: Seq<(String, GithubSlug)>,
    key: Option<Seq<char>>,
    pr: PrRef,
)
    requires
        is_target(r, candidates, key, pr),
    ensures
        key is Some && (forall|k: int|
            0 <= k < candidates.len() ==> (#[trigger] candidates[k]).0@ != key->0) ==> r is Err
            && r->Err_0 is NotAGithubRepo,
        key is None && pr.slug is Some && (forall|k: int|
            0 <= k < candidates.len() ==> (#[trigger] candidates[k]).1@ != pr.slug->0@) ==> r is Err
            && r->Err_0 is NoRepoForSlug,
        key is None && pr.slug is None && candidates.len() == 0 ==> r is Err && r->Err_0
            is NoGithubRepos,
{
    if key is Some && (forall|k: int|
        0 <= k < candidates.len() ==> (#[trigger] candidates[k]).0@ != key->0) {
        lemma_by_key(candidates, key->0, candidates.len() as int);
    }
    if pr.slug is Some && (forall|k: int|
        0 <= k < candidates.len() ==> (#[trigger] candidates[k]).1@ != pr.slug->0@) {
        lemma_by_slug(candidates, pr.slug->0@, candidates.len() as int);
    }
}

/// A pull request whose repo is named goes to that repo or nowhere.
pub proof fn the_named_repo_is_taken(
    r: Result<(String, GithubSlug), AttachError>,
    candidates: Seq<(String, GithubSlug)>,
    key: Option<Seq<char>>,
    pr: PrRef,
)
    requires
        is_target(r, candidates, key, pr),
        key is Some,
        r is Ok,
    ensures
        r->Ok_0.0@ == key->0,
{
    lemma_by_key_holds(candidates, key->0);
}

proof fn lemma_by_key_holds(candidates: Seq<(String, GithubSlug)>, key: Seq<char>)
    ensures
        by_key(candidates, key) matches Some(i) ==> 0 <= i < candidates.len() && candidates[i].0@
            == key,
    decreases candidates.len(),
{
    if candidates.len() > 0 && candidates[0].0@ != key {
        let rest = candidates.drop_first();
        lemma_by_key_holds(rest, key);
        if let Some(i) = by_key(rest, key) {
            assert(rest[i] == candidates[i + 1]);
        }
    }
}

} // verus!
