//! Talking to GitHub through its command line tool: what it is asked, and what
//! its answers mean.

use vstd::prelude::*;

use crate::json;
use crate::json::{Json, JsonView};
use crate::shell;
use crate::text;

verus! {

/// Why GitHub could not be asked.
#[derive(Debug)]
pub enum GhError {
    NotInstalled,
    NotAuthenticated,
    RateLimited,
    Network(String),
    /// The query itself came back with errors.
    Graphql(Vec<String>),
    Other(String),
}

/// The texts between quotes.
pub open spec fn all_quoted(v: Seq<Seq<char>>) -> Seq<Seq<char>> {
    v.map_values(|s: Seq<char>| shell::quoted_text(s))
}

fn quoted_all(v: &[String]) -> (r: Vec<String>)
    ensures
        text::views(r@) == all_quoted(text::views(v@)),
{
    let ghost all = text::views(v@);
    let mut r: Vec<String> = Vec::new();
    let mut i: usize = 0;
    while i < v.len()
        invariant
            i <= v.len(),
            all == text::views(v@),
            text::views(r@) == all_quoted(all.take(i as int)),
        decreases v.len() - i,
    {
        let ghost before = r@;
        r.push(shell::quoted(&v[i]));
        assert(text::views(r@) =~= text::views(before).push(shell::quoted_text(all[i as int])));
        i = i + 1;
        assert(text::views(r@) =~= all_quoted(all.take(i as int)));
    }
    assert(all.take(i as int) =~= all);
    r
}

impl GhError {
    /// The words that the user reads.
    pub open spec fn text(self) -> Seq<char> {
        match self {
            GhError::NotInstalled => "gh CLI is not installed or not on PATH"@,
            GhError::NotAuthenticated => "gh is not authenticated (run `gh auth login`)"@,
            GhError::RateLimited => "GitHub rate limit exceeded"@,
            GhError::Network(m) => "network error talking to GitHub: "@ + m@,
            GhError::Graphql(v) => "GraphQL errors: ["@ + text::join(
                all_quoted(text::views(v@)),
                ", "@,
            ) + "]"@,
            GhError::Other(m) => "gh exited with an error: "@ + m@,
        }
    }

    /// The words that the user reads.
    pub fn message(&self) -> (r: String)
        ensures
            r@ == self.text(),
    {
        match self {
            GhError::NotInstalled => "gh CLI is not installed or not on PATH".to_owned(),
            GhError::NotAuthenticated => "gh is not authenticated (run `gh auth login`)".to_owned(),
            GhError::RateLimited => "GitHub rate limit exceeded".to_owned(),
            GhError::Network(m) => text::cat("network error talking to GitHub: ", m),
            GhError::Graphql(v) => {
                let all = text::joined(&quoted_all(v), ", ");
                text::cat3("GraphQL errors: [", &all, "]")
            },
            GhError::Other(m) => text::cat("gh exited with an error: ", m),
        }
    }

    /// What it means that the tool could not be started.
    pub fn from_io(not_found: bool, error: String) -> (r: GhError)
        ensures
            r == (if not_found {
                GhError::NotInstalled
            } else {
                GhError::Other(error)
            }),
    {
        if not_found {
            GhError::NotInstalled
        } else {
            GhError::Other(error)
        }
    }
}

/// The lowercase form of a text, by the rules of Unicode: `str::to_lowercase`.
pub uninterp spec fn lowercase(s: Seq<char>) -> Seq<char>;

/// `str::to_lowercase`.
#[verifier::external_body]
fn lowered(s: &str) -> (r: String)
    ensures
        r@ == lowercase(s@),
{
    s.to_lowercase()
}

/// Whether the output speaks of a login that is missing.
pub open spec fn lacks_login(haystack: Seq<char>) -> bool {
    text::contains(haystack, "not logged"@) || text::contains(haystack, "authentication required"@)
        || text::contains(haystack, "gh auth login"@)
}

/// Whether the output speaks of a rate limit.
pub open spec fn is_limited(haystack: Seq<char>) -> bool {
    text::contains(haystack, "rate limit"@) || text::contains(
        haystack,
        "api rate limit exceeded"@,
    )
}

/// Whether the output speaks of a connection that failed.
pub open spec fn is_offline(haystack: Seq<char>) -> bool {
    text::contains(haystack, "could not resolve host"@) || text::contains(
        haystack,
        "connection refused"@,
    ) || text::contains(haystack, "network is unreachable"@) || text::contains(
        haystack,
        "dial tcp"@,
    )
}

/// What a failure was, by the output in lowercase.
pub open spec fn is_failure(r: GhError, haystack: Seq<char>, stderr: Seq<char>) -> bool {
    if lacks_login(haystack) {
        r is NotAuthenticated
    } else if is_limited(haystack) {
        r is RateLimited
    } else if is_offline(haystack) {
        r matches GhError::Network(m) && m@ == text::trim(stderr)
    } else {
        r matches GhError::Other(m) && m@ == "stderr: "@ + text::trim(stderr)
    }
}

/// Decide what a failure was, by the output in lowercase.
pub fn classify(haystack: &str, stderr: &str) -> (r: GhError)
    ensures
        is_failure(r, haystack@, stderr@),
{
    if text::holds(haystack, "not logged") || text::holds(haystack, "authentication required")
        || text::holds(haystack, "gh auth login") {
        return GhError::NotAuthenticated;
    }
    if text::holds(haystack, "rate limit") || text::holds(haystack, "api rate limit exceeded") {
        return GhError::RateLimited;
    }
    if text::holds(haystack, "could not resolve host") || text::holds(
        haystack,
        "connection refused",
    ) || text::holds(haystack, "network is unreachable") || text::holds(haystack, "dial tcp") {
        return GhError::Network(text::trimmed(stderr));
    }
    GhError::Other(text::cat("stderr: ", &text::trimmed(stderr)))
}

/// Decide what a failure was.
pub fn classify_failure(stdout: &str, stderr: &str) -> (r: GhError)
    ensures
        is_failure(r, lowercase(stdout@ + "\n"@ + stderr@), stderr@),
{
    classify(&lowered(&text::cat3(stdout, "\n", stderr)), stderr)
}

/// The arguments of a query.
pub open spec fn query_args(query: Seq<char>, variables: Seq<(Seq<char>, Seq<char>)>) -> Seq<
    Seq<char>,
>
    decreases variables.len(),
{
    if variables.len() == 0 {
        seq!["api"@, "graphql"@, "-f"@, "query="@ + query]
    } else {
        query_args(query, variables.drop_last()) + seq![
            "-f"@,
            variables.last().0 + "="@ + variables.last().1,
        ]
    }
}

/// What the variables hold.
pub open spec fn pairs(v: Seq<(String, String)>) -> Seq<(Seq<char>, Seq<char>)> {
    v.map_values(|p: (String, String)| (p.0@, p.1@))
}

/// The arguments of a query. All its variables are texts.
pub fn graphql_args(query: &str, variables: &[(String, String)]) -> (r: Vec<String>)
    ensures
        text::views(r@) == query_args(query@, pairs(variables@)),
{
    let ghost all = pairs(variables@);
    let q = text::cat("query=", query);
    let mut r = text::list(["api", "graphql", "-f", q.as_str()].as_slice());
    assert(text::views(r@) =~= seq!["api"@, "graphql"@, "-f"@, "query="@ + query@]);
    assert(all.take(0).len() == 0);
    let mut i: usize = 0;
    while i < variables.len()
        invariant
            i <= variables.len(),
            all == pairs(variables@),
            text::views(r@) == query_args(query@, all.take(i as int)),
        decreases variables.len() - i,
    {
        let ghost before = text::views(r@);
        r.push("-f".to_owned());
        r.push(text::cat3(&variables[i].0, "=", &variables[i].1));
        proof {
            assert(all.take(i + 1).drop_last() =~= all.take(i as int));
            assert(all.take(i + 1).last() == all[i as int]);
            assert(text::views(r@) =~= before + seq![
                "-f"@,
                all[i as int].0 + "="@ + all[i as int].1,
            ]);
        }
        i = i + 1;
    }
    assert(all.take(i as int) =~= all);
    r
}

/// What a document has under a key, where it is an object.
pub open spec fn under(j: JsonView, key: Seq<char>) -> Option<JsonView> {
    match j {
        JsonView::Object(o) => json::get(o, key),
        _ => None,
    }
}

/// The message of an error in an answer.
pub open spec fn error_message(e: JsonView) -> Seq<char> {
    match under(e, "message"@) {
        Some(JsonView::Str(m)) => m,
        _ => "(unknown)"@,
    }
}

/// What an answer comes down to: its errors where it has a list of them, else its
/// data.
pub open spec fn is_answer(r: Result<Json, GhError>, answer: JsonView) -> bool {
    match under(answer, "errors"@) {
        Some(JsonView::Array(a)) => r matches Err(GhError::Graphql(m)) && text::views(m@)
            == a.map_values(|e: JsonView| error_message(e)),
        _ => match under(answer, "data"@) {
            Some(d) => r matches Ok(j) && j@ == d,
            None => r matches Err(GhError::Other(m)) && m@ == "gh response missing `data` field"@,
        },
    }
}

fn message_of(e: &Json) -> (r: String)
    ensures
        r@ == error_message(e@),
{
    proof {
        json::lemma_shown(*e);
    }
    if let Json::Object(o) = e {
        if let Some(i) = json::find(o, "message") {
            if let Json::Str(m) = &o[i].1 {
                return m.clone();
            }
        }
    }
    "(unknown)".to_owned()
}

fn messages_of(a: &[Json]) -> (r: Vec<String>)
    ensures
        text::views(r@) == json::elements(a@).map_values(|e: JsonView| error_message(e)),
{
    let ghost all = json::elements(a@);
    let mut r: Vec<String> = Vec::new();
    let mut i: usize = 0;
    while i < a.len()
        invariant
            i <= a.len(),
            all == json::elements(a@),
            text::views(r@) == all.take(i as int).map_values(|e: JsonView| error_message(e)),
        decreases a.len() - i,
    {
        let ghost before = r@;
        r.push(message_of(&a[i]));
        assert(text::views(r@) =~= text::views(before).push(error_message(all[i as int])));
        i = i + 1;
        assert(text::views(r@) =~= all.take(i as int).map_values(|e: JsonView| error_message(e)));
    }
    assert(all.take(i as int) =~= all);
    r
}

/// Take an answer apart, once it was read.
pub fn graphql_data(answer: Json) -> (r: Result<Json, GhError>)
    ensures
        is_answer(r, answer@),
        json::keys_distinct(answer@) ==> (r matches Ok(j) ==> json::keys_distinct(j@)),
{
    proof {
        json::lemma_shown(answer);
        if json::keys_distinct(answer@) {
            if let JsonView::Object(o) = answer@ {
                json::lemma_nested_distinct(o, "data"@);
            }
        }
    }
    let mut o = match answer {
        Json::Object(o) => o,
        _ => {
            return Err(GhError::Other("gh response missing `data` field".to_owned()));
        },
    };
    if let Some(i) = json::find(&o, "errors") {
        proof {
            json::lemma_shown(o@[i as int].1);
        }
        if let Json::Array(a) = &o[i].1 {
            return Err(GhError::Graphql(messages_of(a)));
        }
    }
    match json::take(&mut o, "data") {
        Some(d) => Ok(d),
        None => Err(GhError::Other("gh response missing `data` field".to_owned())),
    }
}

/// What a query comes down to, by what the tool wrote.
pub fn run_graphql(success: bool, stdout: &str, stderr: &str) -> (r: Result<Json, GhError>)
    ensures
        if !success {
            r matches Err(e) && is_failure(
                e,
                lowercase(stdout@ + "\n"@ + stderr@),
                stderr@,
            )
        } else {
            match json::json_of(stdout@) {
                Ok(answer) => is_answer(r, answer),
                Err(why) => r matches Err(GhError::Other(m)) && m@ == "invalid JSON from gh: "@
                    + why,
            }
        },
        r matches Ok(j) ==> json::keys_distinct(j@),
{
    if !success {
        return Err(classify_failure(stdout, stderr));
    }
    match json::parse(stdout) {
        Ok(answer) => graphql_data(answer),
        Err(e) => Err(GhError::Other(text::cat("invalid JSON from gh: ", &e))),
    }
}

/// Who is logged in, by what the tool wrote.
pub fn gh_login_status(success: bool, stdout: &str, stderr: &str) -> (r: Result<String, GhError>)
    ensures
        if !success {
            r matches Err(e) && is_failure(
                e,
                lowercase(stdout@ + "\n"@ + stderr@),
                stderr@,
            )
        } else if text::trim(stdout@).len() == 0 {
            r matches Err(GhError::Other(m)) && m@ == "gh returned empty login"@
        } else {
            r matches Ok(login) && login@ == text::trim(stdout@)
        },
{
    if !success {
        return Err(classify_failure(stdout, stderr));
    }
    let login = text::trimmed(stdout);
    if login.as_str().is_empty() {
        return Err(GhError::Other("gh returned empty login".to_owned()));
    }
    Ok(login)
}

/// The query through the command line tool: where pull requests are asked for.
#[derive(Debug, Clone, Copy)]
pub struct GhCli;

proof fn lemma_holds(a: Seq<char>, p: Seq<char>, b: Seq<char>)
    ensures
        text::contains(a + p + b, p),
{
    let s = a + p + b;
    assert(s.subrange(a.len() as int, a.len() as int + p.len()) =~= p);
    assert(text::occurs_at(s, p, a.len() as int));
}

/// What the tool says tells why it failed: that nobody is logged in, by any of three
/// phrases wherever they stand; else that too much was asked; else that there is no way
/// to GitHub, in its own words; and else nothing more than its own words.
pub proof fn a_failure_goes_by_what_was_said(
    r: GhError,
    a: Seq<char>,
    b: Seq<char>,
    phrase: Seq<char>,
    stderr: Seq<char>,
)
    requires
        is_failure(r, a + phrase + b, stderr),
    ensures
        phrase == "not logged"@ || phrase == "authentication required"@ || phrase
            == "gh auth login"@ ==> r is NotAuthenticated,
        phrase == "rate limit"@ ==> r is NotAuthenticated || r is RateLimited,
        phrase == "could not resolve host"@ || phrase == "connection refused"@ || phrase
            == "network is unreachable"@ || phrase == "dial tcp"@ ==> !(r is Other),
        r is NotAuthenticated ==> text::contains(a + phrase + b, "not logged"@) || text::contains(
            a + phrase + b,
            "authentication required"@,
        ) || text::contains(a + phrase + b, "gh auth login"@),
        r is RateLimited ==> text::contains(a + phrase + b, "rate limit"@),
        r is Network ==> r->Network_0@ == text::trim(stderr) && (text::contains(
            a + phrase + b,
            "could not resolve host"@,
        ) || text::contains(a + phrase + b, "connection refused"@) || text::contains(
            a + phrase + b,
            "network is unreachable"@,
        ) || text::contains(a + phrase + b, "dial tcp"@)),
        r is Other ==> r->Other_0@ == "stderr: "@ + text::trim(stderr),
        !(r is NotInstalled) && !(r is Graphql),
{
    lemma_holds(a, phrase, b);
    let s = a + phrase + b;
    if text::contains(s, "api rate limit exceeded"@) {
        reveal_strlit("api rate limit exceeded");
        reveal_strlit("rate limit");
        let long = "api rate limit exceeded"@;
        let i = choose|i: int| text::occurs_at(s, long, i);
        assert(s.subrange(i + 4, i + 14) =~= "rate limit"@) by {
            assert forall|k: int| 0 <= k < 10 implies s[i + 4 + k] == "rate limit"@[k] by {
                assert(s.subrange(i, i + long.len())[4 + k] == long[4 + k]);
            }
        }
        assert(text::occurs_at(s, "rate limit"@, i + 4));
    }
}

/// A query is handed over with each of its variables by name, one behind the other.
pub proof fn a_query_has_its_variables(
    query: Seq<char>,
    variables: Seq<(Seq<char>, Seq<char>)>,
    i: int,
)
    requires
        0 <= i < variables.len(),
    ensures
        query_args(query, variables).len() == 4 + 2 * variables.len(),
        query_args(query, variables)[0] == "api"@ && query_args(query, variables)[1] == "graphql"@,
        query_args(query, variables)[2] == "-f"@ && query_args(query, variables)[3] == "query="@
            + query,
        query_args(query, variables)[4 + 2 * i] == "-f"@,
        query_args(query, variables)[5 + 2 * i] == variables[i].0 + "="@ + variables[i].1,
    decreases variables.len(),
{
    let rest = variables.drop_last();
    lemma_query_len(query, rest);
    if i < rest.len() {
        a_query_has_its_variables(query, rest, i);
    } else if rest.len() > 0 {
        a_query_has_its_variables(query, rest, 0);
    }
}

proof fn lemma_query_len(query: Seq<char>, variables: Seq<(Seq<char>, Seq<char>)>)
    ensures
        query_args(query, variables).len() == 4 + 2 * variables.len(),
    decreases variables.len(),
{
    if variables.len() > 0 {
        lemma_query_len(query, variables.drop_last());
    }
}

/// An answer that lists errors is a failure, with the message of each; one that lists
/// none is its data; and one without either is a failure too.
pub proof fn an_answer_is_its_data_or_its_errors(
    r: Result<Json, GhError>,
    o: Seq<(Seq<char>, JsonView)>,
)
    requires
        is_answer(r, JsonView::Object(o)),
    ensures
        (json::get(o, "errors"@) matches Some(JsonView::Array(a)) ==> r is Err && r->Err_0 is Graphql
            && r->Err_0->Graphql_0@.len() == a.len() && forall|i: int|
            0 <= i < a.len() && a[i] is Object && json::get(
                (#[trigger] a[i])->Object_0,
                "message"@,
            ) is Some && json::get(a[i]->Object_0, "message"@)->0 is Str
                ==> r->Err_0->Graphql_0@[i]@ == json::get(
                a[i]->Object_0,
                "message"@,
            )->0->Str_0),
        json::get(o, "errors"@) is None && json::get(o, "data"@) is Some ==> r is Ok && r->Ok_0@
            == json::get(o, "data"@)->0,
        json::get(o, "errors"@) is None && json::get(o, "data"@) is None ==> r is Err,
{
    if let Some(JsonView::Array(a)) = json::get(o, "errors"@) {
        let m = r->Err_0->Graphql_0;
        assert(text::views(m@).len() == a.len());
        assert forall|i: int|
            0 <= i < a.len() && a[i] is Object && json::get(
                (#[trigger] a[i])->Object_0,
                "message"@,
            ) is Some && json::get(a[i]->Object_0, "message"@)->0 is Str implies m@[i]@
            == json::get(a[i]->Object_0, "message"@)->0->Str_0 by {
            assert(text::views(m@)[i] == error_message(a[i]));
            assert(text::views(m@)[i] == m@[i]@);
        }
    }
}

} // verus!
