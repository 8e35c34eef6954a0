//! Artifacts: things a session produced that can be shown rather than left as
//! text in the terminal. A diagram is the mermaid source out of a fenced block in
//! a reply; a page is an HTML file that the session wrote inside the workspace.

use vstd::prelude::*;

use crate::ids;
use crate::list;
use crate::paths;
use crate::text;

verus! {

/// The most artifacts that a workspace keeps.
pub const CAP_PER_WORKSPACE: usize = 12;

/// The most characters that a label has.
pub const LABEL_MAX_CHARS: usize = 18;

#[derive(Debug)]
pub enum ArtifactKind {
    Diagram { source: String },
    Page { path: String },
}

#[derive(Debug)]
pub struct Artifact {
    pub id: String,
    pub label: String,
    pub kind: ArtifactKind,
    /// Raised every time the same artifact is seen again, so that it can be
    /// reloaded in place.
    pub revision: u32,
}

/// Tells that the artifacts of a workspace changed.
#[derive(Debug)]
pub struct ArtifactChanged {
    pub workspace_id: String,
    /// The one that is new or was seen again; none where one was dismissed.
    pub artifact_id: Option<String>,
}

/// What an artifact shows: the source of a diagram, or the path of a page.
pub open spec fn shows(k: ArtifactKind) -> (bool, Seq<char>) {
    match k {
        ArtifactKind::Diagram { source } => (true, source@),
        ArtifactKind::Page { path } => (false, path@),
    }
}

/// The same source or the same file is the same artifact.
pub open spec fn alike(a: (bool, Seq<char>), b: (bool, Seq<char>)) -> bool {
    a.0 == b.0 && if a.0 {
        a.1 == b.1
    } else {
        paths::same_path(a.1, b.1)
    }
}

fn same_kind(a: &ArtifactKind, b: &ArtifactKind) -> (r: bool)
    ensures
        r == alike(shows(*a), shows(*b)),
{
    match (a, b) {
        (ArtifactKind::Diagram { source: x }, ArtifactKind::Diagram { source: y }) => text::same(
            x,
            y,
        ),
        (ArtifactKind::Page { path: x }, ArtifactKind::Page { path: y }) => paths::same(x, y),
        _ => false,
    }
}

/// Where the artifact that shows this stands.
pub open spec fn shown_at(all: Seq<Artifact>, what: (bool, Seq<char>)) -> Option<int> {
    list::first_where(all, showing(what))
}

/// Showing this.
pub open spec fn showing(what: (bool, Seq<char>)) -> spec_fn(Artifact) -> bool {
    |a: Artifact| alike(shows(a.kind), what)
}

/// The newest of some artifacts, as many as a workspace keeps.
pub open spec fn newest(all: Seq<Artifact>) -> Seq<Artifact> {
    if all.len() <= CAP_PER_WORKSPACE {
        all
    } else {
        all.skip(all.len() - CAP_PER_WORKSPACE)
    }
}

/// Keep an artifact. One that shows the same is kept once, moves to the end and
/// is raised by a revision, under the label that it had; the oldest ones beyond
/// the limit go. Returns the id of the artifact.
pub fn upsert(all: &mut Vec<Artifact>, label: String, kind: ArtifactKind) -> (r: String)
    requires
        shown_at(old(all)@, shows(kind)) matches Some(i) ==> old(all)@[i].revision < u32::MAX,
    ensures
        final(all)@.len() > 0,
        r == final(all)@.last().id,
        match shown_at(old(all)@, shows(kind)) {
            Some(i) => {
                let was = old(all)@[i];
                final(all)@ == newest(
                    old(all)@.remove(i).push(
                        (Artifact { revision: (was.revision + 1) as u32, ..was }),
                    ),
                )
            },
            None => {
                let new = final(all)@.last();
                final(all)@ == newest(old(all)@.push(new)) && new == (Artifact {
                    id: new.id,
                    label,
                    kind,
                    revision: 0,
                }) && new.id@.len() == 36
            },
        },
{
    let ghost before = all@;
    let k = &kind;
    let is = |a: &Artifact| -> (b: bool)
        ensures
            b == alike(shows(a.kind), shows(*k)),
        { same_kind(&a.kind, k) };
    let at: Option<usize> = list::position(all, is, Ghost(showing(shows(*k))));
    let artifact = match at {
        Some(i) => {
            let mut a = all.remove(i);
            a.revision = a.revision + 1;
            a
        },
        None => Artifact { id: ids::fresh_id(), label, kind, revision: 0 },
    };
    let id = artifact.id.clone();
    let ghost new = artifact;
    all.push(artifact);
    let ghost pushed = all@;
    assert(all@.skip(0) =~= all@);
    while all.len() > CAP_PER_WORKSPACE
        invariant
            all@.len() <= pushed.len(),
            all@ == pushed.skip(pushed.len() - all@.len()),
            pushed.len() <= CAP_PER_WORKSPACE ==> all@ == pushed,
            pushed.len() > CAP_PER_WORKSPACE ==> all@.len() >= CAP_PER_WORKSPACE,
        decreases all.len(),
    {
        let ghost had = all@;
        all.remove(0);
        assert(all@ =~= pushed.skip(pushed.len() - all@.len()));
    }
    assert(all@ == newest(pushed));
    assert(all@.last() == new);
    id
}

/// Whether nothing is shown twice, and not too much is kept.
pub open spec fn tidy(all: Seq<Artifact>) -> bool {
    all.len() <= CAP_PER_WORKSPACE && forall|i: int, j: int|
        0 <= i < j < all.len() ==> !alike(
            shows((#[trigger] all[i]).kind),
            shows((#[trigger] all[j]).kind),
        )
}

/// However often artifacts are seen, none is kept twice and no more than the limit
/// are kept; what is evicted is the oldest.
pub proof fn artifacts_stay_tidy(before: Seq<Artifact>, new: Artifact)
    requires
        tidy(before),
    ensures
        ({
            let rest = match shown_at(before, shows(new.kind)) {
                Some(i) => before.remove(i),
                None => before,
            };
            tidy(newest(rest.push(new))) && newest(rest.push(new)).last() == new && (rest.len()
                == CAP_PER_WORKSPACE ==> newest(rest.push(new)) == rest.drop_first().push(new))
        }),
{
    let what = shows(new.kind);
    list::lemma_first_where(before, showing(what));
    let rest = match shown_at(before, what) {
        Some(i) => before.remove(i),
        None => before,
    };
    assert forall|k: int| 0 <= k < rest.len() implies !alike(
        shows((#[trigger] rest[k]).kind),
        what,
    ) by {
        if let Some(i) = shown_at(before, what) {
            if k >= i {
                assert(!alike(shows(before[i].kind), shows(before[k + 1].kind)));
                assert(rest[k] == before[k + 1]);
            } else {
                assert(!alike(shows(before[k].kind), shows(before[i].kind)));
                assert(rest[k] == before[k]);
            }
        } else {
            assert(!showing(what)(before[k]));
        }
    }
    assert forall|a: int, b: int| 0 <= a < b < rest.len() implies !alike(
        shows((#[trigger] rest[a]).kind),
        shows((#[trigger] rest[b]).kind),
    ) by {
        if let Some(i) = shown_at(before, what) {
            let x = if a < i {
                a
            } else {
                a + 1
            };
            let y = if b < i {
                b
            } else {
                b + 1
            };
            assert(!alike(shows(before[x].kind), shows(before[y].kind)));
        }
    }
    let all = rest.push(new);
    let kept = newest(all);
    let cut = all.len() - kept.len();
    assert forall|a: int, b: int| 0 <= a < b < kept.len() implies !alike(
        shows((#[trigger] kept[a]).kind),
        shows((#[trigger] kept[b]).kind),
    ) by {
        assert(kept[a] == all[a + cut]);
        assert(kept[b] == all[b + cut]);
        assert(all[a + cut] == rest[a + cut]);
        if b + cut < rest.len() {
            assert(all[b + cut] == rest[b + cut]);
        }
    }
    if rest.len() == CAP_PER_WORKSPACE {
        assert(kept =~= rest.drop_first().push(new));
    }
}

/// Drop an artifact that the user does not want to see.
pub fn dismiss(all: &mut Vec<Artifact>, artifact_id: &str)
    ensures
        final(all)@ == old(all)@.filter(|a: Artifact| a.id@ != artifact_id@),
{
    let other = |a: &Artifact| -> (b: bool)
        ensures
            b == (a.id@ != artifact_id@),
        { !text::same(&a.id, artifact_id) };
    list::keep(all, other, Ghost(|a: Artifact| a.id@ != artifact_id@));
}

/// Whether an artifact can still be shown, when these are the files that are
/// there.
pub open spec fn is_there(a: Artifact, files: Seq<Seq<char>>) -> bool {
    match a.kind {
        ArtifactKind::Page { path } => files.contains(path@),
        ArtifactKind::Diagram { .. } => true,
    }
}

/// Drop the pages whose file is gone, when `present` are the pages that are there.
/// Returns how many went.
pub fn prune_missing_pages(artifacts: &mut Vec<Artifact>, present: &[String]) -> (r: usize)
    ensures
        final(artifacts)@ == old(artifacts)@.filter(
            |a: Artifact| is_there(a, text::views(present@)),
        ),
        r == old(artifacts)@.len() - final(artifacts)@.len(),
{
    let before: usize = artifacts.len();
    proof {
        list::lemma_filter_places(
            artifacts@,
            |a: Artifact| is_there(a, text::views(present@)),
        );
    }
    let there = |a: &Artifact| -> (b: bool)
        ensures
            b == is_there(*a, text::views(present@)),
        {
            match &a.kind {
                ArtifactKind::Page { path } => text::among(present, path),
                ArtifactKind::Diagram { .. } => true,
            }
        };
    list::keep(
        artifacts,
        there,
        Ghost(|a: Artifact| is_there(a, text::views(present@))),
    );
    before - artifacts.len()
}

/// The label of a page: the name of its file.
pub open spec fn label_of_page(path: Seq<char>) -> Seq<char> {
    match paths::file_name_of(path) {
        Some(n) => n,
        None => "page"@,
    }
}

/// The label of a page: the name of its file.
pub fn page_label(path: &str) -> (r: String)
    ensures
        r@ == label_of_page(path@),
{
    match paths::file_name(path) {
        Some(n) => n,
        None => "page".to_owned(),
    }
}

/// Whether `after` is what is kept once something was seen.
pub open spec fn kept(
    before: Seq<Artifact>,
    label: Seq<char>,
    what: (bool, Seq<char>),
    after: Seq<Artifact>,
) -> bool {
    &&& after.len() > 0
    &&& match shown_at(before, what) {
        Some(i) => after == newest(
            before.remove(i).push(
                (Artifact { revision: (before[i].revision + 1) as u32, ..before[i] }),
            ),
        ),
        None => {
            let new = after.last();
            &&& after == newest(before.push(new))
            &&& new.label@ == label
            &&& shows(new.kind) == what
            &&& new.revision == 0
            &&& new.id@.len() == 36
        },
    }
}

/// Keep a page that a tool just wrote, under the path that its file really has, if it
/// is inside the workspace. Returns the id of the artifact.
pub fn record_page(all: &mut Vec<Artifact>, path: String, inside: bool) -> (r: Option<String>)
    requires
        shown_at(old(all)@, (false, path@)) matches Some(i) ==> old(all)@[i].revision < u32::MAX,
    ensures
        if inside {
            &&& kept(old(all)@, label_of_page(path@), (false, path@), final(all)@)
            &&& r == Some(final(all)@.last().id)
        } else {
            final(all)@ == old(all)@ && r is None
        },
{
    if !inside {
        return None;
    }
    let label = page_label(&path);
    Some(upsert(all, label, ArtifactKind::Page { path }))
}

/// What is known of a tool that a session ran.
#[derive(Debug)]
pub struct ToolCall<'a> {
    pub tool_name: Option<&'a str>,
    /// The file that a file tool wrote.
    pub file_path: Option<&'a str>,
    /// The command that a shell tool ran.
    pub command: Option<&'a str>,
    /// Where a relative path in the command starts.
    pub cwd: Option<&'a str>,
}

/// Whether a path is one of an HTML file.
pub open spec fn is_html(path: Seq<char>) -> bool {
    match paths::extension_of(path) {
        Some(e) => text::ascii_lower(e) == "html"@ || text::ascii_lower(e) == "htm"@,
        None => false,
    }
}

fn html_path(path: &str) -> (r: bool)
    ensures
        r == is_html(path@),
{
    match paths::extension(path) {
        Some(e) => {
            let ext = text::ascii_lowered(&e);
            text::same(&ext, "html") || text::same(&ext, "htm")
        },
        None => false,
    }
}

/// The words from here on, when `cur` was read of the first one inside `quote`.
pub open spec fn words_from(s: Seq<char>, cur: Seq<char>, quote: Option<char>) -> Seq<Seq<char>>
    decreases s.len(),
{
    let done: Seq<Seq<char>> = if cur.len() == 0 {
        seq![]
    } else {
        seq![cur]
    };
    if s.len() == 0 {
        done
    } else {
        let c = s[0];
        let rest = s.drop_first();
        match quote {
            Some(q) => if c == q {
                words_from(rest, cur, None)
            } else {
                words_from(rest, cur.push(c), quote)
            },
            None => if c == '\'' || c == '"' {
                words_from(rest, cur, Some(c))
            } else if text::is_white(c) {
                done + words_from(rest, seq![], None)
            } else {
                words_from(rest, cur.push(c), None)
            },
        }
    }
}

/// The words of a command. White space parts them; what stands between quotes is
/// one word, without the quotes.
fn shell_words(s: &str) -> (r: Vec<String>)
    ensures
        text::views(r@) == words_from(s@, seq![], None),
{
    let v = text::chars_of(s);
    let mut words: Vec<String> = Vec::new();
    let mut cur: String = String::new();
    let mut quote: Option<char> = None;
    let mut i: usize = 0;
    let ghost whole = words_from(s@, seq![], None);
    proof {
        assert(v@.skip(0) =~= s@);
        assert(cur@ =~= seq![]);
        assert(text::views(words@) =~= seq![]);
        assert(text::views(words@) + whole =~= whole);
    }
    while i < v.len()
        invariant
            i <= v.len(),
            text::views(words@) + words_from(v@.skip(i as int), cur@, quote) == whole,
        decreases v.len() - i,
    {
        let c: char = v[i];
        let ghost here = v@.skip(i as int);
        let ghost had = text::views(words@);
        proof {
            assert(here[0] == c);
            assert(here.drop_first() =~= v@.skip(i + 1));
        }
        match quote {
            Some(q) => {
                if c == q {
                    quote = None;
                } else {
                    cur.push(c);
                }
            },
            None => {
                if c == '\'' || c == '"' {
                    quote = Some(c);
                } else if text::white(c) {
                    if !cur.as_str().is_empty() {
                        let ghost word = cur@;
                        words.push(cur);
                        cur = String::new();
                        assert(text::views(words@) =~= had.push(word));
                        assert(had.push(word) + words_from(v@.skip(i + 1), seq![], None) =~= had + (
                        seq![word] + words_from(v@.skip(i + 1), seq![], None)));
                    } else {
                        assert(seq![] + words_from(v@.skip(i + 1), seq![], None) =~= words_from(
                            v@.skip(i + 1),
                            seq![],
                            None,
                        ));
                    }
                    assert(cur@ =~= seq![]);
                } else {
                    cur.push(c);
                }
            },
        }
        i = i + 1;
    }
    assert(v@.skip(i as int).len() == 0);
    if !cur.as_str().is_empty() {
        let ghost had = text::views(words@);
        let ghost word = cur@;
        words.push(cur);
        assert(text::views(words@) =~= had + seq![word]);
    } else {
        assert(text::views(words@) =~= whole);
    }
    words
}

/// The quote that stands open behind `c`, where `quote` stood open before it.
pub open spec fn quote_after(quote: Option<char>, c: char) -> Option<char> {
    match quote {
        Some(q) => if c == q {
            None
        } else {
            quote
        },
        None => if c == '\'' || c == '"' {
            Some(c)
        } else {
            None
        },
    }
}

/// What ends a command: the end of its line, and outside quotes whatever parts
/// the commands of a line.
pub open spec fn ends_command(c: char, quote: Option<char>) -> bool {
    c == '\n' || (quote is None && (c == ';' || c == '|' || c == '&'))
}

/// Where the first command of a command line ends, when it begins inside `quote`.
pub open spec fn command_end(s: Seq<char>, quote: Option<char>) -> int
    decreases s.len(),
{
    if s.len() == 0 || ends_command(s[0], quote) {
        0
    } else {
        1 + command_end(s.drop_first(), quote_after(quote, s[0]))
    }
}

/// The arguments of a command that opens files, but for its flags.
pub open spec fn opened_by(words: Seq<Seq<char>>) -> Seq<Seq<char>> {
    if words.len() > 0 && words[0] == "open"@ {
        words.skip(1).filter(|w: Seq<char>| !(w.len() > 0 && w[0] == '-'))
    } else {
        seq![]
    }
}

pub proof fn lemma_command_end(s: Seq<char>, quote: Option<char>)
    ensures
        0 <= command_end(s, quote) <= s.len(),
    decreases s.len(),
{
    if s.len() > 0 && !ends_command(s[0], quote) {
        lemma_command_end(s.drop_first(), quote_after(quote, s[0]));
    }
}

/// What the commands of a command line open.
pub open spec fn opened(s: Seq<char>) -> Seq<Seq<char>>
    decreases s.len(),
{
    let end = command_end(s, None);
    proof {
        lemma_command_end(s, None);
    }
    if end >= s.len() {
        opened_by(words_from(s, seq![], None))
    } else {
        opened_by(words_from(s.take(end), seq![], None)) + opened(s.skip(end + 1))
    }
}

fn push_opened(out: &mut Vec<String>, segment: &str)
    ensures
        text::views(final(out)@) == text::views(old(out)@) + opened_by(
            words_from(segment@, seq![], None),
        ),
{
    let words = shell_words(segment);
    let ghost all = words_from(segment@, seq![], None);
    let ghost before = text::views(out@);
    let ghost plain = |w: Seq<char>| !(w.len() > 0 && w[0] == '-');
    proof {
        assert(words@.len() == all.len());
        if words@.len() > 0 {
            assert(all[0] == words@[0]@);
        }
    }
    if words.len() == 0 || !text::same(&words[0], "open") {
        assert(before + seq![] =~= before);
        return ;
    }
    let ghost args = all.skip(1);
    let mut i: usize = 1;
    proof {
        reveal_strlit("-");
        args.take(0).lemma_filter_len(plain);
        assert(args.take(0).filter(plain) =~= seq![]);
        assert(before + seq![] =~= before);
    }
    while i < words.len()
        invariant
            1 <= i <= words.len(),
            text::views(words@) == all,
            args == all.skip(1),
            "-"@ == seq!['-'],
            plain == (|w: Seq<char>| !(w.len() > 0 && w[0] == '-')),
            text::views(out@) == before + args.take(i - 1).filter(plain),
        decreases words.len() - i,
    {
        let w = &words[i];
        let ghost had = text::views(out@);
        proof {
            assert(args[i - 1] == w@);
            assert(args.take(i as int) =~= args.take(i - 1).push(w@));
            args.take(i - 1).lemma_filter_push(w@, plain);
        }
        let flag = text::has_prefix(w, "-");
        proof {
            if flag {
                assert(w@.take(1)[0] == "-"@[0]);
            } else if w@.len() > 0 && w@[0] == '-' {
                assert(w@.take(1) =~= "-"@);
            }
        }
        if !flag {
            out.push(w.clone());
            assert(text::views(out@) =~= had.push(w@));
            assert(had.push(w@) =~= before + args.take(i - 1).filter(plain).push(w@));
        }
        i = i + 1;
    }
    assert(args.take(i - 1) =~= args);
}

fn parts_commands(c: char, quote: Option<char>) -> (r: bool)
    ensures
        r == ends_command(c, quote),
{
    c == '\n' || (quote.is_none() && (c == ';' || c == '|' || c == '&'))
}

fn read_quote(quote: Option<char>, c: char) -> (r: Option<char>)
    ensures
        r == quote_after(quote, c),
{
    match quote {
        Some(q) => if c == q {
            None
        } else {
            Some(q)
        },
        None => if c == '\'' || c == '"' {
            Some(c)
        } else {
            None
        },
    }
}

/// The files that a command line opens. Quotes are honoured within a line, nothing
/// else is.
fn opened_paths(command: &str) -> (r: Vec<String>)
    ensures
        text::views(r@) == opened(command@),
{
    let v = text::chars_of(command);
    let mut r: Vec<String> = Vec::new();
    let mut from: usize = 0;
    proof {
        assert(v@.skip(0) =~= command@);
        assert(text::views(r@) + opened(command@) =~= opened(command@));
    }
    loop
        invariant
            from <= v.len(),
            v@ == command@,
            text::views(r@) + opened(v@.skip(from as int)) == opened(command@),
        decreases v.len() - from,
    {
        let ghost here = v@.skip(from as int);
        let ghost had = text::views(r@);
        let mut end: usize = from;
        let mut quote: Option<char> = None;
        assert(v@.skip(end as int) =~= here);
        while end < v.len() && !parts_commands(v[end], quote)
            invariant
                from <= end <= v.len(),
                here == v@.skip(from as int),
                command_end(here, None) == (end - from) + command_end(v@.skip(end as int), quote),
            decreases v.len() - end,
        {
            assert(v@.skip(end as int).drop_first() =~= v@.skip(end + 1));
            quote = read_quote(quote, v[end]);
            end = end + 1;
        }
        assert(command_end(here, None) == end - from);
        let segment = text::piece(&v, from, end);
        assert(segment@ =~= here.take(end - from));
        push_opened(&mut r, &segment);
        if end >= v.len() {
            assert(here.take(end - from) =~= here);
            return r;
        }
        proof {
            assert(here.skip(end - from + 1) =~= v@.skip(end + 1));
            let mine = opened_by(words_from(here.take(end - from), seq![], None));
            assert(had + mine + opened(v@.skip(end + 1)) =~= had + (mine + opened(
                v@.skip(end + 1),
            )));
        }
        from = end + 1;
    }
}

/// The page that a tool wrote or opened, if it did.
pub open spec fn page_of(
    tool: Seq<char>,
    file: Option<Seq<char>>,
    command: Option<Seq<char>>,
    cwd: Option<Seq<char>>,
) -> Option<Seq<char>> {
    if tool == "Write"@ || tool == "Edit"@ || tool == "MultiEdit"@ {
        match file {
            Some(f) if is_html(f) => Some(f),
            _ => None,
        }
    } else if tool == "Bash"@ {
        match command {
            Some(c) => match list::first_of(opened(c), |p: Seq<char>| is_html(p)) {
                Some(p) => match cwd {
                    Some(d) if !paths::is_absolute(p) => Some(paths::join(d, p)),
                    _ => Some(p),
                },
                None => None,
            },
            None => None,
        }
    } else {
        None
    }
}

/// The page that a tool produced: an HTML file that a file tool wrote, or one that
/// a command opened, however it was written.
pub fn page_written(call: &ToolCall) -> (r: Option<String>)
    ensures
        match call.tool_name {
            Some(tool) => text::maybe(r) == page_of(
                tool@,
                text::given(call.file_path),
                text::given(call.command),
                text::given(call.cwd),
            ),
            None => r is None,
        },
{
    let tool = match call.tool_name {
        Some(t) => t,
        None => {
            return None;
        },
    };
    if text::same(tool, "Write") || text::same(tool, "Edit") || text::same(tool, "MultiEdit") {
        match call.file_path {
            Some(f) => if html_path(f) {
                return Some(f.to_owned());
            },
            None => {},
        }
        return None;
    }
    if !text::same(tool, "Bash") {
        return None;
    }
    let command = match call.command {
        Some(c) => c,
        None => {
            return None;
        },
    };
    let found = opened_paths(command);
    let ghost all = opened(command@);
    let ghost html = |p: Seq<char>| is_html(p);
    let mut i: usize = 0;
    while i < found.len()
        invariant
            i <= found.len(),
            all == opened(command@),
            text::views(found@) == all,
            html == (|p: Seq<char>| is_html(p)),
            call.tool_name == Some(tool),
            call.command == Some(command),
            tool@ == "Bash"@,
            !(tool@ == "Write"@ || tool@ == "Edit"@ || tool@ == "MultiEdit"@),
            forall|k: int| 0 <= k < i ==> !html(#[trigger] all[k]),
        decreases found.len() - i,
    {
        assert(all[i as int] == found@[i as int]@);
        if html_path(&found[i]) {
            proof {
                list::lemma_first_where_is(all, html, i as int);
            }
            return match call.cwd {
                Some(d) => if !paths::absolute(&found[i]) {
                    Some(paths::joined(d, &found[i]))
                } else {
                    Some(found[i].clone())
                },
                None => Some(found[i].clone()),
            };
        }
        i = i + 1;
    }
    proof {
        list::lemma_first_where_none(all, html);
    }
    None
}

/// A fence: its character and how often it is repeated.
pub open spec fn run_of(s: Seq<char>, c: char) -> nat
    decreases s.len(),
{
    if s.len() > 0 && s[0] == c {
        1 + run_of(s.drop_first(), c)
    } else {
        0
    }
}

/// The fence that a line opens, where it is one of a diagram: three or more
/// backticks or tildes, and behind them the word `mermaid`.
pub open spec fn fence_of(line: Seq<char>) -> Option<(char, nat)> {
    let t = text::trim_start(line);
    let marker = if "```"@.is_prefix_of(t) {
        Some('`')
    } else if "~~~"@.is_prefix_of(t) {
        Some('~')
    } else {
        None
    };
    match marker {
        Some(c) => {
            let n = run_of(t, c);
            let info = text::words(text::trim(t.skip(n as int)));
            if info.len() > 0 && text::ascii_lower(info[0]) == "mermaid"@ {
                Some((c, n))
            } else {
                None
            }
        },
        None => None,
    }
}

/// Whether a line closes a fence: as many of the same character, or more, and
/// nothing else.
pub open spec fn closes(line: Seq<char>, fence: (char, nat)) -> bool {
    let t = text::trim(line);
    t.len() >= fence.1 && run_of(t, fence.0) == t.len()
}

/// How many bytes a character takes.
pub open spec fn width(c: char) -> nat {
    if (c as u32) < 128 {
        1
    } else if (c as u32) < 2048 {
        2
    } else if (c as u32) < 65536 {
        3
    } else {
        4
    }
}

/// How many bytes of white space a line starts with.
pub open spec fn indent_of(line: Seq<char>) -> nat
    decreases line.len(),
{
    if line.len() > 0 && text::is_white(line[0]) {
        width(line[0]) + indent_of(line.drop_first())
    } else {
        0
    }
}

/// A line without its first `n` bytes. A character that the cut would go through
/// stays.
pub open spec fn without_bytes(line: Seq<char>, n: nat) -> Seq<char>
    decreases line.len(),
{
    if line.len() > 0 && width(line[0]) <= n {
        without_bytes(line.drop_first(), (n - width(line[0])) as nat)
    } else {
        line
    }
}

/// Whether a line holds nothing but white space.
pub open spec fn is_blank(line: Seq<char>) -> bool {
    text::trim(line).len() == 0
}

/// The white space that all lines start with, but for blank ones.
pub open spec fn margin(lines: Seq<Seq<char>>) -> Option<nat>
    decreases lines.len(),
{
    if lines.len() == 0 {
        None
    } else {
        let before = margin(lines.drop_last());
        if is_blank(lines.last()) {
            before
        } else {
            let n = indent_of(lines.last());
            match before {
                Some(m) => if m <= n {
                    Some(m)
                } else {
                    Some(n)
                },
                None => Some(n),
            }
        }
    }
}

/// A line without the margin.
pub open spec fn unindented(line: Seq<char>, n: nat) -> Seq<char> {
    if is_blank(line) {
        seq![]
    } else {
        without_bytes(line, n)
    }
}

/// The lines without the margin that they have in common, as one text.
pub open spec fn dedented(lines: Seq<Seq<char>>) -> Seq<char> {
    let n = match margin(lines) {
        Some(m) => m,
        None => 0,
    };
    text::join(lines.map_values(|l: Seq<char>| unindented(l, n)), "\n"@)
}

/// The title that a line of a diagram gives.
pub open spec fn title_in(line: Seq<char>) -> Option<Seq<char>> {
    match text::strip_prefix(text::trim(line), "title"@) {
        Some(r) => {
            let rest = match text::strip_prefix(r, seq![':']) {
                Some(s) => s,
                None => r,
            };
            if text::trim(rest).len() > 0 && text::is_white(rest[0]) {
                Some(text::trim(rest))
            } else {
                None
            }
        },
        None => None,
    }
}

/// The first title that the lines give.
pub open spec fn title_of(lines: Seq<Seq<char>>) -> Option<Seq<char>>
    decreases lines.len(),
{
    if lines.len() == 0 {
        None
    } else {
        match title_in(lines[0]) {
            Some(t) => Some(t),
            None => title_of(lines.drop_first()),
        }
    }
}

/// A character that a label does not end with.
pub open spec fn is_punct(c: char) -> bool {
    c == '.' || c == ':' || c == '—' || c == '-'
}

/// A text without such characters at its end.
pub open spec fn without_punct(s: Seq<char>) -> Seq<char>
    decreases s.len(),
{
    if s.len() > 0 && is_punct(s.last()) {
        without_punct(s.drop_last())
    } else {
        s
    }
}

/// A text as a label.
pub open spec fn label_text(s: Seq<char>) -> Seq<char> {
    text::trim(without_punct(text::trim(s)))
}

/// The last line that is not blank, without the white space around it.
pub open spec fn last_words(lines: Seq<Seq<char>>) -> Option<Seq<char>>
    decreases lines.len(),
{
    if lines.len() == 0 {
        None
    } else if is_blank(lines.last()) {
        last_words(lines.drop_last())
    } else {
        Some(text::trim(lines.last()))
    }
}

/// The label in a line, where it reads as a title: a heading, a lead-in in bold,
/// or a short line.
pub open spec fn lead_in_of(line: Seq<char>) -> Option<Seq<char>> {
    let n = run_of(line, '#') as int;
    if n > 0 && n < line.len() && line[n] == ' ' {
        Some(label_text(line.skip(n + 1)))
    } else {
        match text::strip_prefix(line, "**"@) {
            Some(rest) => match text::find(rest, "**"@) {
                Some(end) => Some(label_text(rest.take(end))),
                None => if line.len() <= 40 {
                    Some(label_text(line))
                } else {
                    None
                },
            },
            None => if line.len() <= 40 {
                Some(label_text(line))
            } else {
                None
            },
        }
    }
}

/// The first word of a diagram that is neither in its front matter nor in a
/// comment.
pub open spec fn keyword_of(lines: Seq<Seq<char>>, front: bool) -> Option<Seq<char>>
    decreases lines.len(),
{
    if lines.len() == 0 {
        None
    } else {
        let t = text::trim(lines[0]);
        let rest = lines.drop_first();
        if t == "---"@ {
            keyword_of(rest, !front)
        } else if front || t.len() == 0 || "%%"@.is_prefix_of(t) {
            keyword_of(rest, front)
        } else if text::words(t).len() > 0 {
            Some(text::words(t)[0])
        } else {
            None
        }
    }
}

/// A text that is cut where it is too long.
pub open spec fn shortened(s: Seq<char>, max: int) -> Seq<char> {
    if s.len() <= max {
        s
    } else {
        s.take(max - 1).push('…')
    }
}

/// The label of a diagram: its own title, else what the line above it reads, else
/// what kind of diagram it is.
pub open spec fn label_of(source: Seq<char>, above: Seq<Seq<char>>) -> Seq<char> {
    let lines = text::lines(source);
    let lead = match last_words(above) {
        Some(l) => lead_in_of(l),
        None => None,
    };
    let label = match title_of(lines) {
        Some(t) => t,
        None => match lead {
            Some(l) => l,
            None => match keyword_of(lines, false) {
                Some(k) => k,
                None => "diagram"@,
            },
        },
    };
    shortened(label, LABEL_MAX_CHARS as int)
}

/// Where a fence is closed, from a line on; the end where it is not.
pub open spec fn fence_end(lines: Seq<Seq<char>>, from: int, fence: (char, nat)) -> int
    decreases lines.len() - from,
{
    if from >= lines.len() || closes(lines[from], fence) {
        from
    } else {
        fence_end(lines, from + 1, fence)
    }
}

pub proof fn lemma_fence_end(lines: Seq<Seq<char>>, from: int, fence: (char, nat))
    requires
        from <= lines.len(),
    ensures
        from <= fence_end(lines, from, fence) <= lines.len(),
    decreases lines.len() - from,
{
    if from < lines.len() && !closes(lines[from], fence) {
        lemma_fence_end(lines, from + 1, fence);
    }
}

/// The diagrams from a line on, each with its label.
pub open spec fn diagrams_from(lines: Seq<Seq<char>>, from: int) -> Seq<(Seq<char>, Seq<char>)>
    decreases lines.len() - from,
{
    if from < 0 || from >= lines.len() {
        seq![]
    } else {
        match fence_of(lines[from]) {
            None => diagrams_from(lines, from + 1),
            Some(fence) => {
                let end = fence_end(lines, from + 1, fence);
                let source = dedented(lines.subrange(from + 1, end));
                let mine: Seq<(Seq<char>, Seq<char>)> = if is_blank(source) {
                    seq![]
                } else {
                    seq![(label_of(source, lines.take(from)), source)]
                };
                proof {
                    lemma_fence_end(lines, from + 1, fence);
                }
                if end < lines.len() {
                    mine + diagrams_from(lines, end + 1)
                } else {
                    mine
                }
            },
        }
    }
}

fn run_length(v: &[char], c: char) -> (r: usize)
    ensures
        r == run_of(v@, c),
        r <= v.len(),
{
    let mut i: usize = 0;
    assert(v@.skip(0) =~= v@);
    while i < v.len() && v[i] == c
        invariant
            i <= v.len(),
            run_of(v@, c) == i + run_of(v@.skip(i as int), c),
        decreases v.len() - i,
    {
        assert(v@.skip(i as int).drop_first() =~= v@.skip(i + 1));
        i = i + 1;
    }
    i
}

fn open_fence(line: &str) -> (r: Option<(char, usize)>)
    ensures
        match r {
            Some((c, n)) => fence_of(line@) == Some((c, n as nat)),
            None => fence_of(line@) is None,
        },
{
    let t = text::trimmed_start(line);
    let marker: char = if text::has_prefix(&t, "```") {
        '`'
    } else if text::has_prefix(&t, "~~~") {
        '~'
    } else {
        return None;
    };
    let v = text::chars_of(&t);
    let n: usize = run_length(&v, marker);
    let info = text::piece(&v, n, v.len());
    assert(info@ =~= t@.skip(n as int));
    let words = text::split_words(&text::trimmed(&info));
    let ghost all = text::words(text::trim(info@));
    assert(words@.len() == all.len());
    if words.len() == 0 {
        return None;
    }
    assert(all[0] == words@[0]@);
    if text::same(&text::ascii_lowered(&words[0]), "mermaid") {
        Some((marker, n))
    } else {
        None
    }
}

fn closes_fence(line: &str, fence: (char, usize)) -> (r: bool)
    ensures
        r == closes(line@, (fence.0, fence.1 as nat)),
{
    let t = text::trimmed(line);
    let v = text::chars_of(&t);
    v.len() >= fence.1 && run_length(&v, fence.0) == v.len()
}

fn char_width(c: char) -> (r: u128)
    ensures
        r == width(c),
        1 <= r <= 4,
{
    let n: u32 = c as u32;
    if n < 128 {
        1
    } else if n < 2048 {
        2
    } else if n < 65536 {
        3
    } else {
        4
    }
}

fn indent(line: &str) -> (r: u128)
    ensures
        r == indent_of(line@),
{
    let v = text::chars_of(line);
    let mut n: u128 = 0;
    let mut i: usize = 0;
    assert(v@.skip(0) =~= v@);
    while i < v.len() && text::white(v[i])
        invariant
            i <= v.len(),
            n <= 4 * i,
            indent_of(v@) == n + indent_of(v@.skip(i as int)),
        decreases v.len() - i,
    {
        assert(v@.skip(i as int).drop_first() =~= v@.skip(i + 1));
        n = n + char_width(v[i]);
        i = i + 1;
    }
    n
}

fn cut_bytes(line: &str, n: u128) -> (r: String)
    ensures
        r@ == without_bytes(line@, n as nat),
{
    let v = text::chars_of(line);
    let mut left: u128 = n;
    let mut i: usize = 0;
    assert(v@.skip(0) =~= v@);
    while i < v.len()
        invariant
            i <= v.len(),
            v@ == line@,
            without_bytes(v@, n as nat) == without_bytes(v@.skip(i as int), left as nat),
        decreases v.len() - i,
    {
        let w: u128 = char_width(v[i]);
        if w > left {
            let rest = text::piece(&v, i, v.len());
            assert(rest@ =~= v@.skip(i as int));
            return rest;
        }
        assert(v@.skip(i as int).drop_first() =~= v@.skip(i + 1));
        left = left - w;
        i = i + 1;
    }
    let rest = text::piece(&v, i, v.len());
    assert(rest@ =~= v@.skip(i as int));
    rest
}

fn blank(line: &str) -> (r: bool)
    ensures
        r == is_blank(line@),
{
    text::trimmed(line).as_str().is_empty()
}

fn dedent(lines: &[String]) -> (r: String)
    ensures
        r@ == dedented(text::views(lines@)),
{
    let ghost all = text::views(lines@);
    let mut least: Option<u128> = None;
    let mut i: usize = 0;
    assert(all.take(0).len() == 0);
    while i < lines.len()
        invariant
            i <= lines.len(),
            all == text::views(lines@),
            match least {
                Some(m) => margin(all.take(i as int)) == Some(m as nat),
                None => margin(all.take(i as int)) is None,
            },
        decreases lines.len() - i,
    {
        proof {
            assert(all.take(i + 1).drop_last() =~= all.take(i as int));
            assert(all.take(i + 1).last() == lines@[i as int]@);
        }
        if !blank(&lines[i]) {
            let n: u128 = indent(&lines[i]);
            least = match least {
                Some(m) => if m <= n {
                    Some(m)
                } else {
                    Some(n)
                },
                None => Some(n),
            };
        }
        i = i + 1;
    }
    assert(all.take(i as int) =~= all);
    let n: u128 = match least {
        Some(m) => m,
        None => 0,
    };
    let ghost f = |l: Seq<char>| unindented(l, n as nat);
    let mut out: Vec<String> = Vec::new();
    i = 0;
    while i < lines.len()
        invariant
            i <= lines.len(),
            all == text::views(lines@),
            f == (|l: Seq<char>| unindented(l, n as nat)),
            text::views(out@) == all.take(i as int).map_values(f),
        decreases lines.len() - i,
    {
        let ghost had = text::views(out@);
        let l = if blank(&lines[i]) {
            let empty = String::new();
            assert(empty@ =~= seq![]);
            empty
        } else {
            cut_bytes(&lines[i], n)
        };
        assert(l@ == f(all[i as int]));
        out.push(l);
        assert(text::views(out@) =~= had.push(l@));
        i = i + 1;
        assert(text::views(out@) =~= all.take(i as int).map_values(f));
    }
    assert(all.take(i as int) =~= all);
    text::joined(&out, "\n")
}

fn title_directive(lines: &[String]) -> (r: Option<String>)
    ensures
        text::maybe(r) == title_of(text::views(lines@)),
{
    let ghost all = text::views(lines@);
    let mut i: usize = 0;
    assert(all.skip(0) =~= all);
    while i < lines.len()
        invariant
            i <= lines.len(),
            all == text::views(lines@),
            title_of(all) == title_of(all.skip(i as int)),
        decreases lines.len() - i,
    {
        let ghost here = all.skip(i as int);
        proof {
            assert(here[0] == lines@[i as int]@);
            assert(here.drop_first() =~= all.skip(i + 1));
            reveal_strlit(":");
            assert(":"@ =~= seq![':']);
        }
        if let Some(r) = text::without_prefix(&text::trimmed(&lines[i]), "title") {
            let rest = match text::without_prefix(&r, ":") {
                Some(s) => s,
                None => r,
            };
            let title = text::trimmed(&rest);
            let v = text::chars_of(&rest);
            if !title.as_str().is_empty() {
                assert(rest@.len() > 0) by {
                    if rest@.len() == 0 {
                        assert(text::trim(rest@).len() == 0);
                    }
                }
                if text::white(v[0]) {
                    return Some(title);
                }
            }
        }
        i = i + 1;
    }
    None
}

fn strip_punct(s: &str) -> (r: String)
    ensures
        r@ == label_text(s@),
{
    let t = text::trimmed(s);
    let v = text::chars_of(&t);
    let mut n: usize = v.len();
    assert(v@.take(n as int) =~= v@);
    while n > 0 && (v[n - 1] == '.' || v[n - 1] == ':' || v[n - 1] == '—' || v[n - 1] == '-')
        invariant
            n <= v.len(),
            without_punct(v@) == without_punct(v@.take(n as int)),
        decreases n,
    {
        assert(v@.take(n as int).drop_last() =~= v@.take(n - 1));
        n = n - 1;
    }
    let kept = text::piece(&v, 0, n);
    assert(kept@ =~= v@.take(n as int));
    text::trimmed(&kept)
}

fn lead_in(preceding: &[String]) -> (r: Option<String>)
    ensures
        text::maybe(r) == (match last_words(text::views(preceding@)) {
            Some(l) => lead_in_of(l),
            None => None,
        }),
{
    let ghost all = text::views(preceding@);
    let mut n: usize = preceding.len();
    assert(all.take(n as int) =~= all);
    while n > 0 && blank(&preceding[n - 1])
        invariant
            n <= preceding.len(),
            all == text::views(preceding@),
            last_words(all) == last_words(all.take(n as int)),
        decreases n,
    {
        assert(all.take(n as int).last() == preceding@[n - 1]@);
        assert(all.take(n as int).drop_last() =~= all.take(n - 1));
        n = n - 1;
    }
    if n == 0 {
        return None;
    }
    assert(all.take(n as int).last() == preceding@[n - 1]@);
    let line = text::trimmed(&preceding[n - 1]);
    let v = text::chars_of(&line);
    let k: usize = run_length(&v, '#');
    if k > 0 && k < v.len() && v[k] == ' ' {
        let heading = text::piece(&v, k + 1, v.len());
        assert(heading@ =~= line@.skip(k + 1));
        return Some(strip_punct(&heading));
    }
    if let Some(rest) = text::without_prefix(&line, "**") {
        let w = text::chars_of(&rest);
        let stars = text::chars_of("**");
        if let Some(end) = text::seek_text(&w, &stars) {
            let bold = text::piece(&w, 0, end);
            assert(bold@ =~= rest@.take(end as int));
            return Some(strip_punct(&bold));
        }
    }
    if v.len() <= 40 {
        Some(strip_punct(&line))
    } else {
        None
    }
}

fn diagram_keyword(lines: &[String]) -> (r: Option<String>)
    ensures
        text::maybe(r) == keyword_of(text::views(lines@), false),
{
    let ghost all = text::views(lines@);
    let mut front: bool = false;
    let mut i: usize = 0;
    assert(all.skip(0) =~= all);
    while i < lines.len()
        invariant
            i <= lines.len(),
            all == text::views(lines@),
            keyword_of(all, false) == keyword_of(all.skip(i as int), front),
        decreases lines.len() - i,
    {
        let ghost here = all.skip(i as int);
        let t = text::trimmed(&lines[i]);
        proof {
            assert(here[0] == lines@[i as int]@);
            assert(here.drop_first() =~= all.skip(i + 1));
        }
        if text::same(&t, "---") {
            front = !front;
        } else if front || t.as_str().is_empty() || text::has_prefix(&t, "%%") {
        } else {
            let words = text::split_words(&t);
            let ghost split = text::words(t@);
            assert(words@.len() == split.len());
            if words.len() > 0 {
                assert(split[0] == words@[0]@);
                return Some(words[0].clone());
            }
            return None;
        }
        i = i + 1;
    }
    None
}

fn truncate(s: &str, max: usize) -> (r: String)
    requires
        max > 0,
    ensures
        r@ == shortened(s@, max as int),
{
    let v = text::chars_of(s);
    if v.len() <= max {
        return s.to_owned();
    }
    let mut r = text::piece(&v, 0, max - 1);
    r.push('…');
    assert(r@ =~= shortened(s@, max as int));
    r
}

/// The label of a diagram, by its source and the lines above it.
pub fn diagram_label(source: &str, preceding: &[String]) -> (r: String)
    ensures
        r@ == label_of(source@, text::views(preceding@)),
{
    let lines = text::split_lines(source);
    let label = match title_directive(&lines) {
        Some(t) => t,
        None => match lead_in(preceding) {
            Some(l) => l,
            None => match diagram_keyword(&lines) {
                Some(k) => k,
                None => "diagram".to_owned(),
            },
        },
    };
    truncate(&label, LABEL_MAX_CHARS)
}

fn part(lines: &[String], from: usize, to: usize) -> (r: Vec<String>)
    requires
        from <= to <= lines.len(),
    ensures
        text::views(r@) == text::views(lines@).subrange(from as int, to as int),
{
    let ghost all = text::views(lines@);
    let mut r: Vec<String> = Vec::new();
    let mut i: usize = from;
    while i < to
        invariant
            from <= i <= to <= lines.len(),
            all == text::views(lines@),
            text::views(r@) == all.subrange(from as int, i as int),
        decreases to - i,
    {
        let ghost had = text::views(r@);
        r.push(lines[i].clone());
        assert(text::views(r@) =~= had.push(all[i as int]));
        i = i + 1;
        assert(text::views(r@) =~= all.subrange(from as int, i as int));
    }
    r
}

/// The texts of some pairs.
pub open spec fn pair_views(v: Seq<(String, String)>) -> Seq<(Seq<char>, Seq<char>)> {
    v.map_values(|p: (String, String)| (p.0@, p.1@))
}

/// Every diagram in a reply, each with its label.
pub fn extract_diagrams(message: &str) -> (r: Vec<(String, String)>)
    ensures
        pair_views(r@) == diagrams_from(text::lines(message@), 0),
{
    let lines = text::split_lines(message);
    let ghost all = text::lines(message@);
    let mut out: Vec<(String, String)> = Vec::new();
    let mut i: usize = 0;
    assert(pair_views(out@) + diagrams_from(all, 0) =~= diagrams_from(all, 0));
    while i < lines.len()
        invariant
            i <= lines.len(),
            text::views(lines@) == all,
            pair_views(out@) + diagrams_from(all, i as int) == diagrams_from(all, 0),
        decreases lines.len() - i,
    {
        assert(all[i as int] == lines@[i as int]@);
        let fence = match open_fence(&lines[i]) {
            Some(f) => f,
            None => {
                i = i + 1;
                continue ;
            },
        };
        let ghost f = (fence.0, fence.1 as nat);
        let mut end: usize = i + 1;
        while end < lines.len() && !closes_fence(&lines[end], fence)
            invariant
                i < end <= lines.len(),
                text::views(lines@) == all,
                f == (fence.0, fence.1 as nat),
                fence_end(all, i + 1, f) == fence_end(all, end as int, f),
            decreases lines.len() - end,
        {
            assert(all[end as int] == lines@[end as int]@);
            end = end + 1;
        }
        proof {
            if end < lines.len() {
                assert(all[end as int] == lines@[end as int]@);
            }
            assert(fence_end(all, i + 1, f) == end);
        }
        let source = dedent(&part(&lines, i + 1, end));
        let ghost had = pair_views(out@);
        if !blank(&source) {
            let above = part(&lines, 0, i);
            assert(text::views(above@) =~= all.take(i as int));
            let label = diagram_label(&source, &above);
            out.push((label, source));
            assert(pair_views(out@) =~= had.push((label@, source@)));
            assert(had.push((label@, source@)) + diagrams_from(all, end + 1) =~= had + (seq![
                (label@, source@),
            ] + diagrams_from(all, end + 1)));
        } else {
            assert(Seq::<(Seq<char>, Seq<char>)>::empty() + diagrams_from(all, end + 1)
                =~= diagrams_from(all, end + 1));
        }
        if end < lines.len() {
            i = end + 1;
        } else {
            assert(pair_views(out@) + diagrams_from(all, end as int) =~= pair_views(out@));
            i = end;
        }
    }
    assert(diagrams_from(all, i as int) =~= seq![]);
    assert(pair_views(out@) =~= diagrams_from(all, 0));
    out
}

/// A label never has more characters than a tab has room for.
pub proof fn labels_are_short(source: Seq<char>, above: Seq<Seq<char>>)
    ensures
        label_of(source, above).len() <= LABEL_MAX_CHARS,
{
}

proof fn lemma_run_of(s: Seq<char>, c: char, n: int)
    requires
        0 <= n <= s.len(),
        forall|k: int| 0 <= k < n ==> #[trigger] s[k] == c,
        n < s.len() ==> s[n] != c,
    ensures
        run_of(s, c) == n,
    decreases n,
{
    if n > 0 {
        assert(s[0] == c);
        lemma_run_of(s.drop_first(), c, n - 1);
    }
}

proof fn lemma_run_all(s: Seq<char>, c: char)
    ensures
        run_of(s, c) <= s.len(),
        forall|k: int| 0 <= k < run_of(s, c) ==> #[trigger] s[k] == c,
    decreases s.len(),
{
    if s.len() > 0 && s[0] == c {
        let t = s.drop_first();
        lemma_run_all(t, c);
        assert forall|k: int| 0 <= k < run_of(s, c) implies #[trigger] s[k] == c by {
            if k > 0 {
                assert(t[k - 1] == s[k]);
            }
        }
    }
}

/// A fence is closed by a line that holds, but for white space around them, as many of
/// its marks as opened it, or more, and nothing else. So a blank line closes none.
pub proof fn a_fence_is_closed_by_its_own_marks(line: Seq<char>, mark: char, n: nat)
    ensures
        closes(line, (mark, n)) <==> text::trim(line).len() >= n && forall|k: int|
            0 <= k < text::trim(line).len() ==> #[trigger] text::trim(line)[k] == mark,
        n >= 1 && text::trim(line).len() == 0 ==> !closes(line, (mark, n)),
{
    let t = text::trim(line);
    lemma_run_all(t, mark);
    if forall|k: int| 0 <= k < t.len() ==> #[trigger] t[k] == mark {
        lemma_run_of(t, mark, t.len() as int);
    }
}

proof fn lemma_trim_start_pad(pad: Seq<char>, s: Seq<char>)
    requires
        forall|i: int| 0 <= i < pad.len() ==> text::is_white(#[trigger] pad[i]),
    ensures
        text::trim_start(pad + s) == text::trim_start(s),
    decreases pad.len(),
{
    if pad.len() == 0 {
        assert(pad + s =~= s);
    } else {
        assert(text::is_white(pad[0]));
        assert((pad + s).drop_first() =~= pad.drop_first() + s);
        lemma_trim_start_pad(pad.drop_first(), s);
    }
}

/// The line that opens a fence of `n` marks for a diagram: white space, the marks, the
/// word `mermaid`, and whatever else stands behind that word.
pub open spec fn opening(pad: Seq<char>, mark: char, n: nat, more: Seq<char>) -> Seq<char> {
    pad + Seq::new(n, |i: int| mark) + "mermaid"@ + more
}

proof fn lemma_opening(pad: Seq<char>, mark: char, n: nat, more: Seq<char>)
    requires
        mark == '`' || mark == '~',
        n >= 3,
        forall|i: int| 0 <= i < pad.len() ==> text::is_white(#[trigger] pad[i]),
        more.len() > 0 ==> text::is_white(more[0]) && !text::is_white(more.last()),
    ensures
        fence_of(opening(pad, mark, n, more)) == Some((mark, n)),
{
    reveal_strlit("mermaid");
    reveal_strlit("```");
    reveal_strlit("~~~");
    let marks = Seq::new(n, |i: int| mark);
    let info = "mermaid"@ + more;
    let t = marks + info;
    let line = opening(pad, mark, n, more);
    assert(line =~= pad + t);
    lemma_trim_start_pad(pad, t);
    assert(t[0] == mark);
    assert(text::trim_start(line) == t);
    if mark == '`' {
        assert("```"@ =~= t.take(3));
    } else {
        assert(t.take(3)[0] != "```"@[0]);
        assert("~~~"@ =~= t.take(3));
    }
    lemma_run_of(t, mark, n as int);
    assert(t.skip(n as int) =~= info);
    assert(text::trim(info) == info) by {
        let e: Seq<char> = seq![];
        assert(info.last() == (if more.len() > 0 {
            more.last()
        } else {
            'd'
        }));
        text::trimming_takes_off_white_space(e, info, e);
        assert(e + info + e =~= info);
    }
    let word = "mermaid"@;
    assert forall|i: int| 0 <= i < word.len() implies !text::is_white(#[trigger] word[i]) by {}
    if more.len() == 0 {
        assert(info =~= word);
        text::words_stand_between_white_space(word, ' ', more);
    } else {
        text::words_stand_between_white_space(word, more[0], more.drop_first());
        assert(info =~= word + seq![more[0]] + more.drop_first());
    }
    assert(text::words(info)[0] == word);
    assert(text::ascii_lower(word) =~= word);
}

proof fn lemma_fence_end_is(lines: Seq<Seq<char>>, from: int, end: int, fence: (char, nat))
    requires
        0 <= from <= end <= lines.len(),
        forall|i: int| from <= i < end ==> !closes(#[trigger] lines[i], fence),
        end < lines.len() ==> closes(lines[end], fence),
    ensures
        fence_end(lines, from, fence) == end,
    decreases end - from,
{
    if from < end {
        assert(!closes(lines[from], fence));
        lemma_fence_end_is(lines, from + 1, end, fence);
    }
}

/// A fenced diagram is everything between its fences, blank lines and all: behind a line
/// that opens a fence of `n` marks, lines none of which is made of `n` of these marks or
/// more are its body, up to the first that is. What follows that line is read on its
/// own.
pub proof fn a_diagram_is_all_that_its_fence_holds(
    above: Seq<Seq<char>>,
    pad: Seq<char>,
    mark: char,
    n: nat,
    more: Seq<char>,
    body: Seq<Seq<char>>,
    end: Seq<char>,
    below: Seq<Seq<char>>,
)
    requires
        mark == '`' || mark == '~',
        n >= 3,
        forall|i: int| 0 <= i < pad.len() ==> text::is_white(#[trigger] pad[i]),
        more.len() > 0 ==> text::is_white(more[0]) && !text::is_white(more.last()),
        forall|i: int|
            0 <= i < body.len() ==> text::trim(#[trigger] body[i]).len() < n || exists|k: int|
                0 <= k < text::trim(body[i]).len() && #[trigger] text::trim(body[i])[k] != mark,
        text::trim(end).len() >= n,
        forall|k: int| 0 <= k < text::trim(end).len() ==> #[trigger] text::trim(end)[k] == mark,
    ensures
        ({
            let lines = above + seq![opening(pad, mark, n, more)] + body + seq![end] + below;
            let here = diagrams_from(lines, above.len() as int);
            let rest = diagrams_from(lines, (above.len() + body.len() + 2) as int);
            if text::trim(dedented(body)).len() == 0 {
                here == rest
            } else {
                here.len() == rest.len() + 1 && here[0].1 == dedented(body) && here[0].0
                    == label_of(dedented(body), above) && here.drop_first() == rest
            }
        }),
{
    let lines = above + seq![opening(pad, mark, n, more)] + body + seq![end] + below;
    let from = above.len() as int;
    let stop = from + 1 + body.len();
    lemma_opening(pad, mark, n, more);
    assert(lines[from] == opening(pad, mark, n, more));
    assert forall|i: int| from + 1 <= i < stop implies !closes(#[trigger] lines[i], (mark, n)) by {
        assert(lines[i] == body[i - from - 1]);
        a_fence_is_closed_by_its_own_marks(lines[i], mark, n);
    }
    assert(lines[stop] == end);
    a_fence_is_closed_by_its_own_marks(end, mark, n);
    lemma_fence_end_is(lines, from + 1, stop, (mark, n));
    assert(lines.subrange(from + 1, stop) =~= body);
    assert(lines.take(from) =~= above);
    let here = diagrams_from(lines, from);
    let rest = diagrams_from(lines, stop + 1);
    if text::trim(dedented(body)).len() == 0 {
        assert(Seq::<(Seq<char>, Seq<char>)>::empty() + rest =~= rest);
    } else {
        let it = (label_of(dedented(body), above), dedented(body));
        assert(here == seq![it] + rest);
        assert(here.drop_first() =~= rest);
    }
}

/// A line that starts with less than three backticks and less than three tildes opens
/// nothing, and neither does one whose fence is for anything but a diagram: the lines
/// behind it are read as if it were not there.
pub proof fn other_lines_open_nothing(
    lines: Seq<Seq<char>>,
    from: int,
    marks: Seq<char>,
    info: Seq<char>,
)
    requires
        0 <= from < lines.len(),
        text::trim_start(lines[from]) == marks + info,
        forall|i: int| 0 <= i < marks.len() ==> #[trigger] marks[i] == '`' || marks[i] == '~',
        forall|i: int, j: int|
            0 <= i < j < marks.len() ==> #[trigger] marks[i] == #[trigger] marks[j],
        info.len() > 0 ==> info[0] != '`' && info[0] != '~',
        marks.len() >= 3 ==> text::words(text::trim(info)).len() == 0 || text::ascii_lower(
            text::words(text::trim(info))[0],
        ) != "mermaid"@,
    ensures
        diagrams_from(lines, from) == diagrams_from(lines, from + 1),
{
    reveal_strlit("```");
    reveal_strlit("~~~");
    let t = marks + info;
    if marks.len() < 3 {
        assert(!"```"@.is_prefix_of(t)) by {
            if "```"@.is_prefix_of(t) {
                assert(t.take(3)[marks.len() as int] == '`');
            }
        }
        assert(!"~~~"@.is_prefix_of(t)) by {
            if "~~~"@.is_prefix_of(t) {
                assert(t.take(3)[marks.len() as int] == '~');
            }
        }
    } else {
        let c = marks[0];
        if "```"@.is_prefix_of(t) {
            assert(t.take(3)[0] == '`');
        } else if "~~~"@.is_prefix_of(t) {
            assert(t.take(3)[0] == '~');
        }
        assert forall|k: int| 0 <= k < marks.len() implies #[trigger] t[k] == c by {
            assert(t[k] == marks[k]);
        }
        lemma_run_of(t, c, marks.len() as int);
        assert(t.skip(marks.len() as int) =~= info);
    }
}

proof fn lemma_margin_none(lines: Seq<Seq<char>>)
    requires
        margin(lines) is None,
    ensures
        forall|i: int| 0 <= i < lines.len() ==> is_blank(#[trigger] lines[i]),
    decreases lines.len(),
{
    if lines.len() > 0 {
        lemma_margin_none(lines.drop_last());
        assert forall|i: int| 0 <= i < lines.len() implies is_blank(#[trigger] lines[i]) by {
            if i < lines.len() - 1 {
                assert(lines.drop_last()[i] == lines[i]);
            }
        }
    }
}

proof fn lemma_margin_zero(lines: Seq<Seq<char>>, i: int)
    requires
        0 <= i < lines.len(),
        !is_blank(lines[i]),
        indent_of(lines[i]) == 0,
    ensures
        margin(lines) == Some(0nat),
    decreases lines.len(),
{
    if i < lines.len() - 1 {
        lemma_margin_zero(lines.drop_last(), i);
    }
}

/// Where one of the lines is not indented, all of them stay as they are, but that blank
/// ones lose their white space.
pub proof fn lines_at_the_margin_stay(lines: Seq<Seq<char>>, i: int)
    requires
        0 <= i < lines.len(),
        lines[i].len() > 0 && !text::is_white(lines[i][0]),
    ensures
        dedented(lines) == text::join(
            lines.map_values(
                |l: Seq<char>|
                    if text::trim(l).len() == 0 {
                        Seq::<char>::empty()
                    } else {
                        l
                    },
            ),
            seq!['\n'],
        ),
{
    reveal_strlit("\n");
    assert("\n"@ =~= seq!['\n']);
    assert(!is_blank(lines[i])) by {
        let t = lines[i];
        lemma_trim_keeps(t);
    }
    lemma_margin_zero(lines, i);
    assert(lines.map_values(|l: Seq<char>| unindented(l, 0)) =~= lines.map_values(
        |l: Seq<char>|
            if text::trim(l).len() == 0 {
                Seq::<char>::empty()
            } else {
                l
            },
    ));
}

proof fn lemma_trim_keeps(t: Seq<char>)
    requires
        t.len() > 0,
        !text::is_white(t[0]),
    ensures
        text::trim(t).len() > 0,
{
    lemma_trim_end_keeps(t);
}

proof fn lemma_trim_end_keeps(t: Seq<char>)
    requires
        t.len() > 0,
        !text::is_white(t[0]),
    ensures
        text::trim_end(t).len() > 0,
    decreases t.len(),
{
    if text::is_white(t.last()) {
        assert(t.len() > 1);
        lemma_trim_end_keeps(t.drop_last());
    }
}

proof fn lemma_pad(pad: Seq<char>, l: Seq<char>, n: nat)
    requires
        forall|i: int| 0 <= i < pad.len() ==> text::is_white(#[trigger] pad[i]),
    ensures
        is_blank(pad + l) == is_blank(l),
        indent_of(pad + l) == indent_of(pad) + indent_of(l),
        without_bytes(pad + l, indent_of(pad) + n) == without_bytes(l, n),
    decreases pad.len(),
{
    lemma_trim_start_pad(pad, l);
    if pad.len() == 0 {
        assert(pad + l =~= l);
    } else {
        assert(text::is_white(pad[0]));
        let t = pad.drop_first();
        assert((pad + l).drop_first() =~= t + l);
        lemma_pad(t, l, n);
    }
}

proof fn lemma_margin_pad(pad: Seq<char>, lines: Seq<Seq<char>>)
    requires
        forall|i: int| 0 <= i < pad.len() ==> text::is_white(#[trigger] pad[i]),
    ensures
        margin(lines.map_values(|l: Seq<char>| pad + l)) == (match margin(lines) {
            Some(m) => Some(indent_of(pad) + m),
            None => None,
        }),
    decreases lines.len(),
{
    let f = |l: Seq<char>| pad + l;
    if lines.len() > 0 {
        lemma_margin_pad(pad, lines.drop_last());
        assert(lines.map_values(f).drop_last() =~= lines.drop_last().map_values(f));
        lemma_pad(pad, lines.last(), 0);
    }
}

/// The white space that all lines start with does not count: lines that are indented
/// further, all by the same white space, give the same text.
pub proof fn a_common_margin_is_taken_off(pad: Seq<char>, lines: Seq<Seq<char>>)
    requires
        forall|i: int| 0 <= i < pad.len() ==> text::is_white(#[trigger] pad[i]),
    ensures
        dedented(lines.map_values(|l: Seq<char>| pad + l)) == dedented(lines),
{
    let f = |l: Seq<char>| pad + l;
    let n = match margin(lines) {
        Some(m) => m,
        None => 0,
    };
    let wide = match margin(lines.map_values(f)) {
        Some(m) => m,
        None => 0,
    };
    lemma_margin_pad(pad, lines);
    assert(lines.map_values(f).map_values(|l: Seq<char>| unindented(l, wide)) =~= lines.map_values(
        |l: Seq<char>| unindented(l, n),
    )) by {
        assert forall|i: int| 0 <= i < lines.len() implies unindented(
            pad + #[trigger] lines[i],
            wide,
        ) == unindented(lines[i], n) by {
            lemma_pad(pad, lines[i], n);
            if margin(lines) is None {
                lemma_margin_none(lines);
            }
        }
    }
}

/// What some diagrams are drawn from, without their labels.
pub open spec fn sources(diagrams: Seq<(Seq<char>, Seq<char>)>) -> Seq<Seq<char>> {
    diagrams.map_values(|d: (Seq<char>, Seq<char>)| d.1)
}

/// Whether every fence of a diagram that is opened from a line on is closed too.
pub open spec fn all_closed(lines: Seq<Seq<char>>, from: int) -> bool
    decreases lines.len() - from,
{
    if from < 0 || from >= lines.len() {
        true
    } else {
        match fence_of(lines[from]) {
            None => all_closed(lines, from + 1),
            Some(fence) => {
                let end = fence_end(lines, from + 1, fence);
                proof {
                    lemma_fence_end(lines, from + 1, fence);
                }
                end < lines.len() && all_closed(lines, end + 1)
            },
        }
    }
}

proof fn lemma_sources_add(
    a: Seq<(Seq<char>, Seq<char>)>,
    b: Seq<(Seq<char>, Seq<char>)>,
)
    ensures
        sources(a + b) == sources(a) + sources(b),
{
    assert(sources(a + b) =~= sources(a) + sources(b));
}

proof fn lemma_fence_end_before(
    a: Seq<Seq<char>>,
    b: Seq<Seq<char>>,
    from: int,
    fence: (char, nat),
)
    requires
        0 <= from,
        fence_end(a, from, fence) < a.len(),
    ensures
        fence_end(a + b, from, fence) == fence_end(a, from, fence),
    decreases a.len() - from,
{
    if from < a.len() {
        assert((a + b)[from] == a[from]);
        if !closes(a[from], fence) {
            lemma_fence_end_before(a, b, from + 1, fence);
        }
    }
}

proof fn lemma_fence_end_behind(
    a: Seq<Seq<char>>,
    b: Seq<Seq<char>>,
    from: int,
    fence: (char, nat),
)
    requires
        0 <= from <= b.len(),
    ensures
        fence_end(a + b, a.len() + from, fence) == a.len() + fence_end(b, from, fence),
    decreases b.len() - from,
{
    if from < b.len() {
        assert((a + b)[a.len() + from] == b[from]);
        if !closes(b[from], fence) {
            lemma_fence_end_behind(a, b, from + 1, fence);
        }
    }
}

/// What is in front of some lines does not change what is drawn in them.
proof fn lemma_sources_behind(a: Seq<Seq<char>>, b: Seq<Seq<char>>, from: int)
    requires
        0 <= from,
    ensures
        sources(diagrams_from(a + b, a.len() + from)) == sources(diagrams_from(b, from)),
    decreases b.len() - from,
{
    let c = a + b;
    if from >= b.len() {
        assert(sources(diagrams_from(c, a.len() + from)) =~= sources(diagrams_from(b, from)));
    } else {
        assert(c[a.len() + from] == b[from]);
        match fence_of(b[from]) {
            None => {
                lemma_sources_behind(a, b, from + 1);
            },
            Some(fence) => {
                let end = fence_end(b, from + 1, fence);
                lemma_fence_end(b, from + 1, fence);
                lemma_fence_end_behind(a, b, from + 1, fence);
                assert(c.subrange(a.len() + from + 1, a.len() + end) =~= b.subrange(
                    from + 1,
                    end,
                ));
                let source = dedented(b.subrange(from + 1, end));
                let here: Seq<(Seq<char>, Seq<char>)> = if is_blank(source) {
                    seq![]
                } else {
                    seq![(label_of(source, b.take(from)), source)]
                };
                let there: Seq<(Seq<char>, Seq<char>)> = if is_blank(source) {
                    seq![]
                } else {
                    seq![(label_of(source, c.take(a.len() + from)), source)]
                };
                assert(sources(here) =~= sources(there));
                if end < b.len() {
                    lemma_sources_behind(a, b, end + 1);
                    lemma_sources_add(here, diagrams_from(b, end + 1));
                    lemma_sources_add(there, diagrams_from(c, a.len() + end + 1));
                }
            },
        }
    }
}

/// Lines whose fences are all closed are read as they are with others behind them.
proof fn lemma_sources_before(a: Seq<Seq<char>>, b: Seq<Seq<char>>, from: int)
    requires
        0 <= from <= a.len(),
        all_closed(a, from),
    ensures
        sources(diagrams_from(a + b, from)) == sources(diagrams_from(a, from)) + sources(
            diagrams_from(b, 0),
        ),
    decreases a.len() - from,
{
    let c = a + b;
    if from == a.len() {
        lemma_sources_behind(a, b, 0);
        assert(sources(diagrams_from(a, from)) =~= seq![]);
        assert(sources(diagrams_from(a, from)) + sources(diagrams_from(b, 0)) =~= sources(
            diagrams_from(b, 0),
        ));
    } else {
        assert(c[from] == a[from]);
        match fence_of(a[from]) {
            None => {
                lemma_sources_before(a, b, from + 1);
            },
            Some(fence) => {
                let end = fence_end(a, from + 1, fence);
                lemma_fence_end(a, from + 1, fence);
                lemma_fence_end_before(a, b, from + 1, fence);
                assert(c.subrange(from + 1, end) =~= a.subrange(from + 1, end));
                assert(c.take(from) =~= a.take(from));
                let source = dedented(a.subrange(from + 1, end));
                let mine: Seq<(Seq<char>, Seq<char>)> = if is_blank(source) {
                    seq![]
                } else {
                    seq![(label_of(source, a.take(from)), source)]
                };
                lemma_sources_before(a, b, end + 1);
                lemma_sources_add(mine, diagrams_from(a, end + 1));
                lemma_sources_add(mine, diagrams_from(c, end + 1));
                assert(sources(mine) + (sources(diagrams_from(a, end + 1)) + sources(
                    diagrams_from(b, 0),
                )) =~= sources(mine) + sources(diagrams_from(a, end + 1)) + sources(
                    diagrams_from(b, 0),
                ));
            },
        }
    }
}

/// A carriage return at the end of a line makes no fence of it and takes none away.
proof fn lemma_fence_cr(l: Seq<char>)
    ensures
        fence_of(text::strip_cr(l)) == fence_of(l),
        forall|f: (char, nat)| closes(text::strip_cr(l), f) == #[trigger] closes(l, f),
{
    if l.len() > 0 && l.last() == '\r' {
        let s = l.drop_last();
        assert(s.push('\r') =~= l);
        text::lemma_trim_push(s, '\r');
        text::lemma_trim_start_push(s, '\r');
        let t = text::trim_start(s);
        reveal_strlit("```");
        reveal_strlit("~~~");
        if t.len() > 0 {
            let u = t.push('\r');
            assert("```"@.is_prefix_of(u) == "```"@.is_prefix_of(t)) by {
                if "```"@.is_prefix_of(u) {
                    assert(u.take(3)[2] == '`');
                    assert(u.take(3) =~= t.take(3));
                }
                if "```"@.is_prefix_of(t) {
                    assert(u.take(3) =~= t.take(3));
                }
            }
            assert("~~~"@.is_prefix_of(u) == "~~~"@.is_prefix_of(t)) by {
                if "~~~"@.is_prefix_of(u) {
                    assert(u.take(3)[2] == '~');
                    assert(u.take(3) =~= t.take(3));
                }
                if "~~~"@.is_prefix_of(t) {
                    assert(u.take(3) =~= t.take(3));
                }
            }
            lemma_run_cr(t, '`');
            lemma_run_cr(t, '~');
            let n = run_of(t, '`') as int;
            let m = run_of(t, '~') as int;
            assert(u.skip(n) =~= t.skip(n).push('\r'));
            assert(u.skip(m) =~= t.skip(m).push('\r'));
            text::lemma_trim_push(t.skip(n), '\r');
            text::lemma_trim_push(t.skip(m), '\r');
        } else {
            assert(t =~= seq![]);
        }
    }
}

proof fn lemma_run_cr(t: Seq<char>, c: char)
    requires
        c != '\r',
    ensures
        run_of(t.push('\r'), c) == run_of(t, c),
        run_of(t, c) <= t.len(),
    decreases t.len(),
{
    let u = t.push('\r');
    if t.len() == 0 {
        assert(u[0] == '\r');
    } else if t[0] == c {
        assert(u.drop_first() =~= t.drop_first().push('\r'));
        lemma_run_cr(t.drop_first(), c);
    }
}

proof fn lemma_fence_end_cr(
    a: Seq<Seq<char>>,
    b: Seq<Seq<char>>,
    from: int,
    fence: (char, nat),
)
    requires
        a.len() == b.len() > 0,
        a.drop_last() == b.drop_last(),
        b.last() == text::strip_cr(a.last()),
        0 <= from <= a.len(),
    ensures
        fence_end(b, from, fence) == fence_end(a, from, fence),
    decreases a.len() - from,
{
    if from < a.len() {
        lemma_same_but_last(a, b, from);
        if !closes(a[from], fence) {
            lemma_fence_end_cr(a, b, from + 1, fence);
        }
    }
}

proof fn lemma_same_but_last(a: Seq<Seq<char>>, b: Seq<Seq<char>>, i: int)
    requires
        a.len() == b.len() > 0,
        a.drop_last() == b.drop_last(),
        b.last() == text::strip_cr(a.last()),
        0 <= i < a.len(),
    ensures
        fence_of(b[i]) == fence_of(a[i]),
        forall|f: (char, nat)| closes(b[i], f) == #[trigger] closes(a[i], f),
        i < a.len() - 1 ==> a[i] == b[i],
{
    if i < a.len() - 1 {
        assert(a.drop_last()[i] == b.drop_last()[i]);
    } else {
        lemma_fence_cr(a.last());
    }
}

/// Ending the last line of some changes nothing about what is drawn in them, where
/// every fence is closed.
proof fn lemma_sources_cr(a: Seq<Seq<char>>, b: Seq<Seq<char>>, from: int)
    requires
        a.len() == b.len() > 0,
        a.drop_last() == b.drop_last(),
        b.last() == text::strip_cr(a.last()),
        0 <= from <= a.len(),
        all_closed(a, from),
    ensures
        all_closed(b, from),
        sources(diagrams_from(b, from)) == sources(diagrams_from(a, from)),
    decreases a.len() - from,
{
    if from < a.len() {
        lemma_same_but_last(a, b, from);
        match fence_of(a[from]) {
            None => {
                lemma_sources_cr(a, b, from + 1);
            },
            Some(fence) => {
                let end = fence_end(a, from + 1, fence);
                lemma_fence_end(a, from + 1, fence);
                lemma_fence_end_cr(a, b, from + 1, fence);
                assert forall|k: int| 0 <= k < end implies a[k] == b[k] by {
                    lemma_same_but_last(a, b, k);
                }
                assert(b.subrange(from + 1, end) =~= a.subrange(from + 1, end));
                assert(b.take(from) =~= a.take(from));
                let source = dedented(a.subrange(from + 1, end));
                let mine: Seq<(Seq<char>, Seq<char>)> = if is_blank(source) {
                    seq![]
                } else {
                    seq![(label_of(source, a.take(from)), source)]
                };
                lemma_sources_cr(a, b, end + 1);
                lemma_sources_add(mine, diagrams_from(a, end + 1));
                lemma_sources_add(mine, diagrams_from(b, end + 1));
            },
        }
    }
}

proof fn lemma_no_fence()
    ensures
        all_closed(seq![Seq::<char>::empty()], 0),
        diagrams_from(seq![Seq::<char>::empty()], 0).len() == 0,
{
    reveal_strlit("```");
    reveal_strlit("~~~");
    reveal_with_fuel(all_closed, 2);
    reveal_with_fuel(diagrams_from, 2);
    assert(fence_of(Seq::<char>::empty()) is None);
}

/// Two replies, one after the other, hold the diagrams of the first and then those of
/// the second, where the first leaves no fence open.
pub proof fn replies_hold_their_diagrams_in_turn(first: Seq<char>, second: Seq<char>)
    requires
        all_closed(text::lines(first), 0),
    ensures
        sources(diagrams_from(text::lines(first + "\n"@ + second), 0)) == sources(
            diagrams_from(text::lines(first), 0),
        ) + sources(diagrams_from(text::lines(second), 0)),
{
    reveal_strlit("\n");
    let ended = first + "\n"@;
    let a = text::lines(first);
    let b = text::lines(second);
    assert(ended =~= first.push('\n'));
    text::lemma_lines_concat(ended, second);
    if first.len() == 0 || first.last() == '\n' {
        let none: Seq<char> = seq![];
        text::lemma_lines_concat(first, "\n"@);
        text::lemma_one_line(none);
        assert(none.push('\n') =~= "\n"@);
        let more = seq![text::strip_cr(none)];
        assert(a + more + b =~= a + (more + b));
        lemma_sources_before(a, more + b, 0);
        lemma_no_fence();
        lemma_sources_before(more, b, 0);
        assert(sources(diagrams_from(more, 0)) =~= seq![]);
        assert(sources(diagrams_from(more, 0)) + sources(diagrams_from(b, 0)) =~= sources(
            diagrams_from(b, 0),
        ));
    } else {
        text::lemma_last_line(first);
        let c = text::lines(ended);
        assert(c.drop_last() =~= a.drop_last());
        lemma_sources_cr(a, c, 0);
        lemma_sources_before(c, b, 0);
    }
}

/// Every diagram that is found says something, under a label that a tab has room for,
/// and where no line opens a fence there is none.
pub proof fn every_diagram_says_something(lines: Seq<Seq<char>>, from: int)
    ensures
        forall|i: int|
            0 <= i < diagrams_from(lines, from).len() ==> !is_blank(
                (#[trigger] diagrams_from(lines, from)[i]).1,
            ) && diagrams_from(lines, from)[i].0.len() <= LABEL_MAX_CHARS,
        (forall|k: int| 0 <= from <= k < lines.len() ==> fence_of(#[trigger] lines[k]) is None)
            ==> diagrams_from(lines, from).len() == 0,
    decreases lines.len() - from,
{
    let all = diagrams_from(lines, from);
    if 0 <= from < lines.len() {
        match fence_of(lines[from]) {
            None => {
                every_diagram_says_something(lines, from + 1);
                assert(all == diagrams_from(lines, from + 1));
            },
            Some(fence) => {
                let end = fence_end(lines, from + 1, fence);
                lemma_fence_end(lines, from + 1, fence);
                let source = dedented(lines.subrange(from + 1, end));
                labels_are_short(source, lines.take(from));
                let mine: Seq<(Seq<char>, Seq<char>)> = if is_blank(source) {
                    seq![]
                } else {
                    seq![(label_of(source, lines.take(from)), source)]
                };
                if end < lines.len() {
                    every_diagram_says_something(lines, end + 1);
                    let rest = diagrams_from(lines, end + 1);
                    assert(all == mine + rest);
                    assert forall|i: int| 0 <= i < all.len() implies !is_blank(
                        (#[trigger] all[i]).1,
                    ) && all[i].0.len() <= LABEL_MAX_CHARS by {
                        if i >= mine.len() {
                            assert(all[i] == rest[i - mine.len()]);
                        }
                    }
                } else {
                    assert(all == mine);
                }
            },
        }
    }
}

/// Whether `after` is what is kept once some diagrams were seen in turn, under these
/// ids.
pub open spec fn kept_all(
    before: Seq<Artifact>,
    diagrams: Seq<(Seq<char>, Seq<char>)>,
    ids: Seq<String>,
    after: Seq<Artifact>,
) -> bool
    decreases diagrams.len(),
{
    if diagrams.len() == 0 {
        after == before && ids.len() == 0
    } else {
        &&& ids.len() == diagrams.len()
        &&& exists|mid: Seq<Artifact>|
            kept_all(before, diagrams.drop_last(), ids.drop_last(), mid) && #[trigger] kept(
                mid,
                diagrams.last().0,
                (true, diagrams.last().1),
                after,
            )
        &&& ids.last() == after.last().id
    }
}

proof fn lemma_one_more(
    before: Seq<Artifact>,
    diagrams: Seq<(Seq<char>, Seq<char>)>,
    ids: Seq<String>,
    mid: Seq<Artifact>,
    after: Seq<Artifact>,
)
    requires
        diagrams.len() > 0,
        ids.len() == diagrams.len(),
        kept_all(before, diagrams.drop_last(), ids.drop_last(), mid),
        kept(mid, diagrams.last().0, (true, diagrams.last().1), after),
        ids.last() == after.last().id,
    ensures
        kept_all(before, diagrams, ids, after),
{
}

/// Whether every artifact can be seen so many times more.
pub open spec fn room(all: Seq<Artifact>, n: nat) -> bool {
    forall|i: int| 0 <= i < all.len() ==> (#[trigger] all[i]).revision + n <= u32::MAX
}

proof fn lemma_room(before: Seq<Artifact>, label: Seq<char>, what: (bool, Seq<char>), n: nat)
    requires
        room(before, n),
        n > 0,
        n <= u32::MAX,
    ensures
        forall|after: Seq<Artifact>| #[trigger]
            kept(before, label, what, after) ==> room(after, (n - 1) as nat),
{
    list::lemma_first_where(before, showing(what));
    assert forall|after: Seq<Artifact>| #[trigger] kept(before, label, what, after) implies room(
        after,
        (n - 1) as nat,
    ) by {
        let all = match shown_at(before, what) {
            Some(i) => before.remove(i).push(
                (Artifact { revision: (before[i].revision + 1) as u32, ..before[i] }),
            ),
            None => before.push(after.last()),
        };
        assert forall|k: int| 0 <= k < all.len() implies (#[trigger] all[k]).revision + (n - 1)
            <= u32::MAX by {
            if let Some(i) = shown_at(before, what) {
                assert(before[i].revision + n <= u32::MAX);
                if k < i {
                    assert(all[k] == before[k]);
                } else if k < before.len() - 1 {
                    assert(all[k] == before[k + 1]);
                }
            } else if k < before.len() {
                assert(all[k] == before[k]);
            }
        }
        let cut = all.len() - after.len();
        assert forall|k: int| 0 <= k < after.len() implies (#[trigger] after[k]).revision + (n - 1)
            <= u32::MAX by {
            assert(after[k] == all[k + cut]);
        }
    }
}

/// Keep every diagram in a reply that is complete. Returns the ids of the artifacts.
pub fn record_diagrams(all: &mut Vec<Artifact>, message: &str) -> (r: Vec<String>)
    requires
        room(old(all)@, diagrams_from(text::lines(message@), 0).len()),
        diagrams_from(text::lines(message@), 0).len() <= u32::MAX,
    ensures
        kept_all(old(all)@, diagrams_from(text::lines(message@), 0), r@, final(all)@),
{
    let mut found = extract_diagrams(message);
    let ghost diagrams = diagrams_from(text::lines(message@), 0);
    let ghost pairs = found@;
    let ghost total = diagrams.len();
    assert(pair_views(pairs).len() == pairs.len());
    let ghost before = all@;
    let ghost mut k: int = 0;
    let mut ids: Vec<String> = Vec::new();
    assert(diagrams.take(0).len() == 0);
    assert(pairs.skip(0) =~= pairs);
    while found.len() > 0
        invariant
            0 <= k <= total,
            total == diagrams.len(),
            total <= u32::MAX,
            total == pairs.len(),
            diagrams == pair_views(pairs),
            found@ == pairs.skip(k),
            room(all@, (total - k) as nat),
            ids@.len() == k,
            kept_all(before, diagrams.take(k), ids@, all@),
        decreases found.len(),
    {
        let ghost mid = all@;
        let ghost had = ids@;
        let (label, source) = found.remove(0);
        proof {
            assert(pairs[k] == (label, source));
            assert(diagrams[k] == (label@, source@));
            assert(found@ =~= pairs.skip(k + 1));
            assert(diagrams.take(k + 1).drop_last() =~= diagrams.take(k));
            assert(diagrams.take(k + 1).last() == (label@, source@));
            lemma_room(mid, label@, (true, source@), (total - k) as nat);
            list::lemma_first_where(mid, showing((true, source@)));
        }
        let id = upsert(all, label, ArtifactKind::Diagram { source });
        ids.push(id);
        proof {
            assert(ids@.drop_last() =~= had);
            assert(kept(mid, label@, (true, source@), all@));
            lemma_one_more(before, diagrams.take(k + 1), ids@, mid, all@);
            k = k + 1;
        }
    }
    assert(diagrams.take(k) =~= diagrams);
    ids
}

/// Whether an artifact shows this: a diagram drawn from the same source, or the page at
/// the same place.
pub open spec fn is_of(kind: ArtifactKind, what: (bool, Seq<char>)) -> bool {
    match kind {
        ArtifactKind::Diagram { source } => what.0 && source@ == what.1,
        ArtifactKind::Page { path } => !what.0 && paths::same_path(path@, what.1),
    }
}

/// What was seen is the newest of the artifacts. Seen for the first time it has its
/// label and no revision; seen again it is the artifact that it was, raised by one. The
/// others stay, in their order, up to twelve in all, from which the oldest goes.
pub proof fn what_was_seen_is_kept(
    before: Seq<Artifact>,
    label: Seq<char>,
    what: (bool, Seq<char>),
    after: Seq<Artifact>,
    i: int,
)
    requires
        kept(before, label, what, after),
        before.len() <= 12,
        0 <= i <= before.len(),
        forall|k: int| 0 <= k < i ==> !is_of((#[trigger] before[k]).kind, what),
        i < before.len() ==> is_of(before[i].kind, what) && before[i].revision < u32::MAX,
    ensures
        is_of(after.last().kind, what),
        i == before.len() ==> after.last().label@ == label && after.last().revision == 0,
        i == before.len() ==> after.len() == (if before.len() < 12 {
            before.len() + 1
        } else {
            12
        }),
        i == before.len() && before.len() < 12 ==> after.drop_last() == before,
        i == before.len() && before.len() == 12 ==> after.drop_last() == before.drop_first(),
        i < before.len() ==> after.last().id == before[i].id && after.last().label
            == before[i].label && after.last().kind == before[i].kind && after.last().revision
            == before[i].revision + 1,
        i < before.len() ==> after.drop_last() == before.remove(i),
{
    list::lemma_first_where(before, showing(what));
    assert forall|k: int| 0 <= k < before.len() implies (showing(what))(#[trigger] before[k])
        == is_of(before[k].kind, what) by {}
    if i < before.len() {
        assert((showing(what))(before[i]));
        list::lemma_first_where_is(before, showing(what), i);
        assert(after.drop_last() =~= before.remove(i));
    } else {
        list::lemma_first_where_none(before, showing(what));
        if before.len() < 12 {
            assert(after.drop_last() =~= before);
        } else {
            assert(after.drop_last() =~= before.drop_first());
        }
    }
}

/// A page is a file whose extension says so, in either of two spellings and in letters of
/// either case.
pub proof fn which_files_are_pages(dir: Seq<char>, stem: Seq<char>, ext: Seq<char>)
    requires
        stem.len() > 0 && !stem.contains('/'),
        !ext.contains('/') && !ext.contains('.'),
        !(stem == seq!['.'] && ext.len() == 0),
    ensures
        is_html(dir + seq!['/'] + stem + seq!['.'] + ext) <==> text::ascii_lower(ext) == "html"@
            || text::ascii_lower(ext) == "htm"@,
{
    paths::an_extension_follows_the_last_dot(dir, stem, ext);
}

/// A tool that writes a file writes a page where that file is one, and a tool that runs
/// commands shows the first page that they open; any other tool does neither.
pub proof fn which_tools_make_pages(
    tool: Seq<char>,
    file: Option<Seq<char>>,
    command: Option<Seq<char>>,
    cwd: Option<Seq<char>>,
)
    ensures
        tool == "Write"@ || tool == "Edit"@ || tool == "MultiEdit"@ ==> page_of(
            tool,
            file,
            command,
            cwd,
        ) == (if file is Some && is_html(file->0) {
            file
        } else {
            None
        }),
        tool != "Write"@ && tool != "Edit"@ && tool != "MultiEdit"@ && tool != "Bash"@ ==> page_of(
            tool,
            file,
            command,
            cwd,
        ) is None,
        command is None ==> page_of("Bash"@, file, command, cwd) is None,
{
    reveal_strlit("Write");
    reveal_strlit("Edit");
    reveal_strlit("MultiEdit");
    reveal_strlit("Bash");
    assert("Bash"@.len() == 4 && "Edit"@.len() == 4 && "Bash"@[0] != "Edit"@[0]);
    assert("Write"@.len() == 5 && "MultiEdit"@.len() == 9);
}

/// A character that a word of a command can have without a quote.
pub open spec fn word_char(c: char) -> bool {
    !text::is_white(c) && c != '\'' && c != '"' && c != ';' && c != '|' && c != '&'
}

proof fn lemma_word(w: Seq<char>, rest: Seq<char>, cur: Seq<char>)
    requires
        forall|i: int| 0 <= i < w.len() ==> word_char(#[trigger] w[i]),
    ensures
        words_from(w + rest, cur, None) == words_from(rest, cur + w, None),
    decreases w.len(),
{
    if w.len() == 0 {
        assert(w + rest =~= rest);
        assert(cur + w =~= cur);
    } else {
        assert(word_char(w[0]));
        let s = w + rest;
        assert(s.drop_first() =~= w.drop_first() + rest);
        lemma_word(w.drop_first(), rest, cur.push(w[0]));
        assert(cur.push(w[0]) + w.drop_first() =~= cur + w);
    }
}

proof fn lemma_quoted(body: Seq<char>, q: char, rest: Seq<char>, cur: Seq<char>)
    requires
        !body.contains(q),
    ensures
        words_from(body + seq![q] + rest, cur, Some(q)) == words_from(rest, cur + body, None),
    decreases body.len(),
{
    let s = body + seq![q] + rest;
    if body.len() == 0 {
        assert(s.drop_first() =~= rest);
        assert(cur + body =~= cur);
    } else {
        assert(body.contains(body[0]));
        assert(s.drop_first() =~= body.drop_first() + seq![q] + rest);
        assert(!body.drop_first().contains(q)) by {
            if body.drop_first().contains(q) {
                let k = choose|k: int|
                    0 <= k < body.drop_first().len() && body.drop_first()[k] == q;
                assert(body[k + 1] == q);
            }
        }
        lemma_quoted(body.drop_first(), q, rest, cur.push(body[0]));
        assert(cur.push(body[0]) + body.drop_first() =~= cur + body);
    }
}

/// The words of a command stand between white space, and a quoted one holds all that its
/// quotes do, white space and other marks too, without the quotes.
pub proof fn words_of_a_command(w: Seq<char>, body: Seq<char>, q: char, rest: Seq<char>)
    requires
        w.len() > 0 && forall|i: int| 0 <= i < w.len() ==> word_char(#[trigger] w[i]),
        q == '\'' || q == '"',
        body.len() > 0 && !body.contains(q),
    ensures
        words_from(w, seq![], None) == seq![w],
        words_from(w + seq![' '] + rest, seq![], None) == seq![w] + words_from(rest, seq![], None),
        words_from(seq![q] + body + seq![q] + seq![' '] + rest, seq![], None) == seq![body]
            + words_from(rest, seq![], None),
        words_from(seq![q] + body + seq![q], seq![], None) == seq![body],
        words_from(seq![' '] + rest, seq![], None) == words_from(rest, seq![], None),
{
    let e: Seq<char> = seq![];
    let gap = seq![' '] + rest;
    assert(gap.drop_first() =~= rest);
    lemma_word(w, e, e);
    assert(w + e =~= w && e + w =~= w);
    assert(words_from(e, w, None) =~= seq![w]);
    lemma_word(w, gap, e);
    assert(w + gap =~= w + seq![' '] + rest);
    assert(words_from(gap, w, None) == seq![w] + words_from(rest, e, None));
    lemma_quoted(body, q, gap, e);
    lemma_quoted(body, q, e, e);
    assert(e + body =~= body);
    let s = seq![q] + body + seq![q] + seq![' '] + rest;
    assert(s.drop_first() =~= body + seq![q] + gap);
    assert(words_from(gap, body, None) == seq![body] + words_from(rest, e, None));
    let t = seq![q] + body + seq![q];
    assert(t.drop_first() =~= body + seq![q] + e);
    assert(words_from(e, body, None) =~= seq![body]);
    assert(words_from(gap, e, None) =~= words_from(rest, e, None));
}

proof fn lemma_command_end_is(a: Seq<char>, b: Seq<char>)
    requires
        forall|i: int|
            0 <= i < a.len() ==> #[trigger] a[i] != '\n' && a[i] != ';' && a[i] != '|' && a[i]
                != '&' && a[i] != '\'' && a[i] != '"',
        b.len() > 0 ==> b[0] == ';' || b[0] == '|' || b[0] == '&' || b[0] == '\n',
    ensures
        command_end(a + b, None) == a.len(),
    decreases a.len(),
{
    let s = a + b;
    if a.len() == 0 {
        assert(s =~= b);
    } else {
        assert(a[0] != '\n' && a[0] != ';');
        assert(s[0] == a[0]);
        assert(s.drop_first() =~= a.drop_first() + b);
        lemma_command_end_is(a.drop_first(), b);
    }
}

/// Commands that stand in one line, or in several, are read one by one.
pub proof fn commands_are_read_one_by_one(first: Seq<char>, mark: char, rest: Seq<char>)
    requires
        forall|i: int|
            0 <= i < first.len() ==> #[trigger] first[i] != '\n' && first[i] != ';' && first[i]
                != '|' && first[i] != '&' && first[i] != '\'' && first[i] != '"',
        mark == ';' || mark == '|' || mark == '&' || mark == '\n',
    ensures
        opened(first + seq![mark] + rest) == opened(first) + opened(rest),
{
    let e: Seq<char> = seq![];
    let s = first + seq![mark] + rest;
    let b = seq![mark] + rest;
    assert(s =~= first + b);
    lemma_command_end_is(first, b);
    assert(s.take(first.len() as int) =~= first);
    assert(s.skip(first.len() as int + 1) =~= rest);
    lemma_command_end_is(first, e);
    assert(first + e =~= first);
}

/// Opening a file opens it, quoted or not; a command that is not to open something, and a
/// flag, opens nothing.
pub proof fn what_a_command_opens(
    word: Seq<char>,
    path: Seq<char>,
    quoted: Seq<char>,
    q: char,
    flag: Seq<char>,
)
    requires
        word.len() > 0 && word != "open"@ && forall|i: int|
            0 <= i < word.len() ==> word_char(#[trigger] word[i]),
        path.len() > 0 && path[0] != '-' && forall|i: int|
            0 <= i < path.len() ==> word_char(#[trigger] path[i]),
        q == '\'' || q == '"',
        quoted.len() > 0 && quoted[0] != '-' && !quoted.contains(q) && !quoted.contains('\n'),
        flag.len() > 0 && flag[0] == '-' && forall|i: int|
            0 <= i < flag.len() ==> word_char(#[trigger] flag[i]),
    ensures
        opened("open "@ + path) == seq![path],
        opened("open "@ + seq![q] + quoted + seq![q]) == seq![quoted],
        opened("open "@ + flag) == Seq::<Seq<char>>::empty(),
        opened(word + seq![' '] + path) == Seq::<Seq<char>>::empty(),
{
    reveal_strlit("open ");
    reveal_strlit("open");
    let o = "open"@;
    let e: Seq<char> = seq![];
    assert forall|i: int| 0 <= i < o.len() implies word_char(#[trigger] o[i]) by {}
    assert("open "@ =~= o + seq![' ']);
    lemma_simple(o, path);
    lemma_simple(o, flag);
    lemma_simple(word, path);
    words_of_a_command(o, path, q, path);
    words_of_a_command(path, quoted, q, e);
    words_of_a_command(o, quoted, q, flag);
    words_of_a_command(flag, quoted, q, e);
    words_of_a_command(word, quoted, q, path);
    assert(o + seq![' '] + path =~= "open "@ + path);
    assert(o + seq![' '] + flag =~= "open "@ + flag);
    lemma_opened_by(o, path);
    lemma_opened_by(o, flag);
    lemma_opened_by(o, quoted);
    let inner = seq![q] + quoted + seq![q];
    let t = "open "@ + seq![q] + quoted + seq![q];
    words_of_a_command(o, quoted, q, inner);
    assert(o + seq![' '] + inner =~= t);
    lemma_quoted_end(o + seq![' '], q, quoted);
    assert(o + seq![' '] + seq![q] + quoted + seq![q] =~= t);
}

proof fn lemma_opened_by(first: Seq<char>, second: Seq<char>)
    ensures
        opened_by(seq![first] + seq![second]) == (if first == "open"@ && !(second.len() > 0
            && second[0] == '-') {
            seq![second]
        } else {
            seq![]
        }),
{
    let not = |w: Seq<char>| !(w.len() > 0 && w[0] == '-');
    let all = seq![first] + seq![second];
    assert(all.skip(1) =~= seq![second]);
    reveal(Seq::filter);
    let one = seq![second];
    assert(one.drop_last() =~= seq![]);
    assert(one.drop_last().filter(not) =~= seq![]);
    assert(one.filter(not) =~= (if not(second) {
        seq![second]
    } else {
        seq![]
    }));
}

proof fn lemma_simple(a: Seq<char>, b: Seq<char>)
    requires
        a.len() > 0 && forall|i: int| 0 <= i < a.len() ==> word_char(#[trigger] a[i]),
        forall|i: int| 0 <= i < b.len() ==> word_char(#[trigger] b[i]),
    ensures
        opened(a + seq![' '] + b) == opened_by(words_from(a + seq![' '] + b, seq![], None)),
{
    let s = a + seq![' '] + b;
    let e: Seq<char> = seq![];
    assert forall|i: int| 0 <= i < s.len() implies #[trigger] s[i] != '\n' && s[i] != ';' && s[i]
        != '|' && s[i] != '&' && s[i] != '\'' && s[i] != '"' by {
        if i < a.len() {
            assert(word_char(a[i]));
        } else if i > a.len() {
            assert(word_char(b[i - a.len() - 1]));
        }
    }
    lemma_command_end_is(s, e);
    assert(s + e =~= s);
}

proof fn lemma_quoted_end(before: Seq<char>, q: char, body: Seq<char>)
    requires
        forall|i: int|
            0 <= i < before.len() ==> #[trigger] before[i] != '\n' && before[i] != ';' && before[i]
                != '|' && before[i] != '&' && before[i] != '\'' && before[i] != '"',
        q == '\'' || q == '"',
        !body.contains(q) && !body.contains('\n'),
    ensures
        opened(before + seq![q] + body + seq![q]) == opened_by(
            words_from(before + seq![q] + body + seq![q], seq![], None),
        ),
    decreases before.len(),
{
    let s = before + seq![q] + body + seq![q];
    lemma_through(before, q, body);
}

proof fn lemma_through(before: Seq<char>, q: char, body: Seq<char>)
    requires
        forall|i: int|
            0 <= i < before.len() ==> #[trigger] before[i] != '\n' && before[i] != ';' && before[i]
                != '|' && before[i] != '&' && before[i] != '\'' && before[i] != '"',
        q == '\'' || q == '"',
        !body.contains(q) && !body.contains('\n'),
    ensures
        command_end(before + seq![q] + body + seq![q], None) == before.len() + body.len() + 2,
    decreases before.len(),
{
    let s = before + seq![q] + body + seq![q];
    if before.len() == 0 {
        assert(s.drop_first() =~= body + seq![q]);
        lemma_inside(body, q);
    } else {
        assert(before[0] != '\n');
        assert(s[0] == before[0]);
        let rest = before.drop_first();
        assert forall|i: int| 0 <= i < rest.len() implies #[trigger] rest[i] != '\n' && rest[i]
            != ';' && rest[i] != '|' && rest[i] != '&' && rest[i] != '\'' && rest[i] != '"' by {
            assert(rest[i] == before[i + 1]);
        }
        assert(s.drop_first() =~= rest + seq![q] + body + seq![q]);
        lemma_through(rest, q, body);
    }
}

proof fn lemma_inside(body: Seq<char>, q: char)
    requires
        !body.contains(q) && !body.contains('\n'),
        q == '\'' || q == '"',
    ensures
        command_end(body + seq![q], Some(q)) == body.len() + 1,
    decreases body.len(),
{
    let s = body + seq![q];
    if body.len() == 0 {
        assert(s.drop_first() =~= seq![]);
        assert(command_end(s.drop_first(), None) == 0);
    } else {
        assert(body.contains(body[0]));
        let rest = body.drop_first();
        assert forall|c: char| rest.contains(c) implies body.contains(c) by {
            let k = choose|k: int| 0 <= k < rest.len() && rest[k] == c;
            assert(body[k + 1] == c);
        }
        assert(s[0] == body[0]);
        assert(s.drop_first() =~= rest + seq![q]);
        lemma_inside(rest, q);
    }
}

/// A command that opens a page shows it: at the place that it names, or, where that is
/// not a whole path, in the directory that the command runs in.
pub proof fn an_opened_page_is_shown(path: Seq<char>, dir: Seq<char>)
    requires
        path.len() > 0 && path[0] != '-' && forall|i: int|
            0 <= i < path.len() ==> word_char(#[trigger] path[i]),
    ensures
        page_of("Bash"@, None, Some("open "@ + path), Some(dir)) == (if !is_html(path) {
            None
        } else if path[0] == '/' {
            Some(path)
        } else {
            Some(paths::join(dir, path))
        }),
        page_of("Bash"@, None, Some("open "@ + path), None) == (if is_html(path) {
            Some(path)
        } else {
            None
        }),
{
    reveal_strlit("Write");
    reveal_strlit("Edit");
    reveal_strlit("MultiEdit");
    reveal_strlit("Bash");
    assert("Bash"@.len() == 4 && "Edit"@.len() == 4 && "Bash"@[0] != "Edit"@[0]);
    assert("Write"@.len() == 5 && "MultiEdit"@.len() == 9);
    let w = seq!['x'];
    reveal_strlit("open");
    assert("open"@.len() == 4);
    assert(word_char('x'));
    assert(word_char('-'));
    let f = seq!['-'];
    what_a_command_opens(w, path, w, '"', f);
    let html = |p: Seq<char>| is_html(p);
    let all = seq![path];
    list::lemma_first_where(all, html);
    assert(all[0] == path);
}

/// A label of at most eighteen characters: a longer text is cut, which shows.
pub open spec fn as_label(s: Seq<char>) -> Seq<char> {
    if s.len() <= 18 {
        s
    } else {
        s.take(17).push('…')
    }
}

/// Whether no line of a diagram starts with the word for a title.
pub open spec fn untitled(source: Seq<char>) -> bool {
    forall|k: int|
        0 <= k < text::lines(source).len() ==> !"title"@.is_prefix_of(
            text::trim(#[trigger] text::lines(source)[k]),
        )
}

proof fn lemma_title_at(lines: Seq<Seq<char>>, i: int, title: Option<Seq<char>>)
    requires
        0 <= i <= lines.len(),
        forall|k: int| 0 <= k < i ==> !"title"@.is_prefix_of(text::trim(#[trigger] lines[k])),
        i < lines.len() ==> title is Some && title_in(lines[i]) == title,
        i == lines.len() ==> title is None,
    ensures
        title_of(lines) == title,
    decreases i,
{
    if i > 0 {
        assert(!"title"@.is_prefix_of(text::trim(lines[0])));
        let rest = lines.drop_first();
        assert forall|k: int| 0 <= k < i - 1 implies !"title"@.is_prefix_of(
            text::trim(#[trigger] rest[k]),
        ) by {
            assert(rest[k] == lines[k + 1]);
        }
        lemma_title_at(rest, i - 1, title);
    }
}

proof fn lemma_stays(t: Seq<char>)
    requires
        t.len() > 0 ==> !text::is_white(t[0]) && !text::is_white(t.last()),
    ensures
        text::trim(t) == t,
{
    let e: Seq<char> = seq![];
    text::trimming_takes_off_white_space(e, t, e);
    assert(e + t + e =~= t);
}

/// A diagram that gives itself a title is called by it, the first where it gives several.
pub proof fn a_title_names_its_diagram(
    source: Seq<char>,
    above: Seq<Seq<char>>,
    i: int,
    colon: bool,
    gap: char,
    title: Seq<char>,
)
    requires
        0 <= i < text::lines(source).len(),
        forall|k: int|
            0 <= k < i ==> !"title"@.is_prefix_of(text::trim(#[trigger] text::lines(source)[k])),
        text::is_white(gap),
        title.len() > 0 && !text::is_white(title[0]) && !text::is_white(title.last()),
        text::trim(text::lines(source)[i]) == "title"@ + (if colon {
            seq![':']
        } else {
            seq![]
        }) + seq![gap] + title,
    ensures
        label_of(source, above) == as_label(title),
{
    reveal_strlit("title");
    let lines = text::lines(source);
    let t = text::trim(lines[i]);
    let mid: Seq<char> = if colon {
        seq![':']
    } else {
        seq![]
    };
    let e: Seq<char> = seq![];
    let rest = seq![gap] + title;
    assert(t.take(5) =~= "title"@);
    assert(t.skip(5) =~= mid + rest);
    assert(seq![':'].is_prefix_of(t.skip(5)) == colon) by {
        if colon {
            assert(t.skip(5).take(1) =~= seq![':']);
        } else {
            assert(t.skip(5)[0] == gap);
            if seq![':'].is_prefix_of(t.skip(5)) {
                assert(t.skip(5).take(1)[0] == ':');
            }
        }
    }
    if colon {
        assert(t.skip(5).skip(1) =~= rest);
    } else {
        assert(t.skip(5) =~= rest);
    }
    text::trimming_takes_off_white_space(seq![gap], title, e);
    assert(seq![gap] + title + e =~= rest);
    assert(rest[0] == gap);
    lemma_title_at(lines, i, Some(title));
}

proof fn lemma_last_words(before: Seq<Seq<char>>, line: Seq<char>, blanks: Seq<Seq<char>>)
    requires
        text::trim(line).len() > 0,
        forall|i: int| 0 <= i < blanks.len() ==> text::trim(#[trigger] blanks[i]).len() == 0,
    ensures
        last_words(before.push(line) + blanks) == Some(text::trim(line)),
    decreases blanks.len(),
{
    let all = before.push(line) + blanks;
    if blanks.len() == 0 {
        assert(all =~= before.push(line));
    } else {
        assert(text::trim(blanks[blanks.len() - 1]).len() == 0);
        assert(all.drop_last() =~= before.push(line) + blanks.drop_last());
        lemma_last_words(before, line, blanks.drop_last());
    }
}

proof fn lemma_plain_label(h: Seq<char>)
    requires
        h.len() > 0,
        !text::is_white(h[0]) && !text::is_white(h.last()),
        h.last() != '.' && h.last() != ':' && h.last() != '-' && h.last() != '—',
    ensures
        label_text(h) == h,
        label_text(h.push('.')) == h && label_text(h.push(':')) == h && label_text(h.push('-')) == h
            && label_text(h.push('—')) == h,
{
    lemma_stays(h);
    lemma_ended_label(h, '.');
    lemma_ended_label(h, ':');
    lemma_ended_label(h, '-');
    lemma_ended_label(h, '—');
}

proof fn lemma_ended_label(h: Seq<char>, c: char)
    requires
        h.len() > 0,
        !text::is_white(h[0]) && !text::is_white(h.last()),
        h.last() != '.' && h.last() != ':' && h.last() != '-' && h.last() != '—',
        c == '.' || c == ':' || c == '-' || c == '—',
    ensures
        label_text(h.push(c)) == h,
{
    let p = h.push(c);
    lemma_stays(p);
    lemma_stays(h);
    assert(p.drop_last() =~= h);
    assert(without_punct(h) == h);
    assert(without_punct(p) == h);
}

/// A diagram without a title is called by what leads to it, the last line above it that
/// is not blank: a heading by what it says, however deep it is; a line that starts in
/// bold by what is bold; another line, where it is short, by itself; each without the
/// mark that it may end in.
pub proof fn a_lead_in_names_its_diagram(
    source: Seq<char>,
    before: Seq<Seq<char>>,
    h: Seq<char>,
    more: Seq<char>,
    depth: nat,
    blanks: Seq<Seq<char>>,
)
    requires
        untitled(source),
        forall|i: int| 0 <= i < blanks.len() ==> text::trim(#[trigger] blanks[i]).len() == 0,
        h.len() > 0,
        !text::is_white(h[0]) && !text::is_white(h.last()),
        h.last() != '.' && h.last() != ':' && h.last() != '-' && h.last() != '—',
        !h.contains('*') && h[0] != '#',
        more.len() > 0 ==> !text::is_white(more.last()),
        depth >= 1,
    ensures
        label_of(
            source,
            before.push(Seq::new(depth, |i: int| '#') + seq![' '] + h) + blanks,
        ) == as_label(h),
        label_of(
            source,
            before.push(Seq::new(depth, |i: int| '#') + seq![' '] + h + seq![':']) + blanks,
        ) == as_label(h),
        label_of(source, before.push(seq!['*', '*'] + h + seq!['*', '*'] + more) + blanks)
            == as_label(h),
        h.len() <= 40 ==> label_of(source, before.push(h) + blanks) == as_label(h),
        h.len() < 40 ==> label_of(source, before.push(h.push(':')) + blanks) == as_label(h),
{
    reveal_strlit("**");
    assert("**"@ =~= seq!['*', '*']);
    lemma_title_at(text::lines(source), text::lines(source).len() as int, None);
    lemma_plain_label(h);
    let marks = Seq::new(depth, |i: int| '#');
    let n = depth as int;
    let a = marks + seq![' '] + h;
    lemma_stays(a);
    lemma_run_of(a, '#', n);
    assert(a[n] == ' ');
    assert(a.skip(n + 1) =~= h);
    lemma_last_words(before, a, blanks);
    let b = marks + seq![' '] + h + seq![':'];
    lemma_stays(b);
    lemma_run_of(b, '#', n);
    assert(b[n] == ' ');
    assert(b.skip(n + 1) =~= h.push(':'));
    lemma_last_words(before, b, blanks);
    let rest = h + seq!['*', '*'] + more;
    let c = seq!['*', '*'] + h + seq!['*', '*'] + more;
    assert(c[0] == '*');
    assert(c.last() == (if more.len() > 0 {
        more.last()
    } else {
        '*'
    }));
    lemma_stays(c);
    lemma_run_of(c, '#', 0);
    assert(c.take(2) =~= "**"@);
    assert(c.skip(2) =~= rest);
    assert(text::find(rest, "**"@) == Some(h.len() as int)) by {
        assert(rest.subrange(h.len() as int, h.len() as int + 2) =~= "**"@);
        assert forall|k: int| 0 <= k < h.len() implies !text::occurs_at(rest, "**"@, k) by {
            if text::occurs_at(rest, "**"@, k) {
                assert(rest.subrange(k, k + 2)[0] == rest[k]);
                assert(h.contains(h[k]));
            }
        }
        text::lemma_find(rest, "**"@, h.len() as int);
    }
    assert(rest.take(h.len() as int) =~= h);
    lemma_last_words(before, c, blanks);
    lemma_stays(h);
    lemma_run_of(h, '#', 0);
    assert(!"**"@.is_prefix_of(h)) by {
        if "**"@.is_prefix_of(h) {
            assert(h.take(2)[0] == '*');
            assert(h.contains(h[0]));
        }
    }
    lemma_last_words(before, h, blanks);
    let d = h.push(':');
    lemma_stays(d);
    lemma_run_of(d, '#', 0);
    assert(!"**"@.is_prefix_of(d)) by {
        if "**"@.is_prefix_of(d) {
            assert(d.take(2)[0] == '*');
            assert(h.contains(h[0]));
        }
    }
    lemma_last_words(before, d, blanks);
}

/// A diagram that has neither a title nor anything that leads to it is called by the
/// first word of it that is neither a comment nor in its front matter.
pub proof fn a_keyword_names_its_diagram(source: Seq<char>, blanks: Seq<Seq<char>>, word: Seq<char>)
    requires
        untitled(source),
        forall|i: int| 0 <= i < blanks.len() ==> text::trim(#[trigger] blanks[i]).len() == 0,
        text::lines(source).len() > 0,
        text::words(text::trim(text::lines(source)[0])).len() > 0,
        text::words(text::trim(text::lines(source)[0]))[0] == word,
        text::trim(text::lines(source)[0]).len() > 0,
        text::trim(text::lines(source)[0]) != "---"@,
        !"%%"@.is_prefix_of(text::trim(text::lines(source)[0])),
    ensures
        label_of(source, blanks) == as_label(word),
{
    lemma_title_at(text::lines(source), text::lines(source).len() as int, None);
    lemma_all_blank(blanks);
}

proof fn lemma_all_blank(blanks: Seq<Seq<char>>)
    requires
        forall|i: int| 0 <= i < blanks.len() ==> text::trim(#[trigger] blanks[i]).len() == 0,
    ensures
        last_words(blanks) is None,
    decreases blanks.len(),
{
    if blanks.len() > 0 {
        assert(text::trim(blanks[blanks.len() - 1]).len() == 0);
        lemma_all_blank(blanks.drop_last());
    }
}

/// Blank lines, comments and front matter are passed over on the way to the first word.
pub proof fn what_is_passed_over(line: Seq<char>, rest: Seq<Seq<char>>, front: bool)
    ensures
        text::trim(line).len() == 0 ==> keyword_of(seq![line] + rest, front) == keyword_of(
            rest,
            front,
        ),
        "%%"@.is_prefix_of(text::trim(line)) ==> keyword_of(seq![line] + rest, front)
            == keyword_of(rest, front),
        text::trim(line) == "---"@ ==> keyword_of(seq![line] + rest, front) == keyword_of(
            rest,
            !front,
        ),
        text::trim(line) != "---"@ ==> keyword_of(seq![line] + rest, true) == keyword_of(
            rest,
            true,
        ),
        keyword_of(seq![], front) is None,
{
    reveal_strlit("---");
    reveal_strlit("%%");
    let all = seq![line] + rest;
    assert(all.drop_first() =~= rest);
    if "%%"@.is_prefix_of(text::trim(line)) {
        assert(text::trim(line).take(2)[0] == '%');
        assert(text::trim(line)[0] == '%');
    }
}

/// A page whose file is gone is not there any more, and a diagram always is.
pub proof fn pages_need_their_files(a: Artifact, files: Seq<Seq<char>>)
    ensures
        a.kind matches ArtifactKind::Page { path } ==> (is_there(a, files) <==> exists|i: int|
            0 <= i < files.len() && #[trigger] files[i] == path@),
        a.kind is Diagram ==> is_there(a, files),
{
    if let ArtifactKind::Page { path } = a.kind {
        if files.contains(path@) {
            let i = choose|i: int| 0 <= i < files.len() && files[i] == path@;
            assert(files[i] == path@);
        }
    }
}

/// A reply without diagrams changes nothing, and each diagram of one with some gets an
/// id; the last of them is the newest artifact.
pub proof fn each_diagram_gets_its_id(
    before: Seq<Artifact>,
    diagrams: Seq<(Seq<char>, Seq<char>)>,
    ids: Seq<String>,
    after: Seq<Artifact>,
)
    requires
        kept_all(before, diagrams, ids, after),
    ensures
        ids.len() == diagrams.len(),
        diagrams.len() == 0 ==> after == before,
        diagrams.len() > 0 ==> after.len() > 0 && after.last().id == ids.last() && is_of(
            after.last().kind,
            (true, diagrams.last().1),
        ),
{
    if diagrams.len() > 0 {
        let mid = choose|mid: Seq<Artifact>|
            kept_all(before, diagrams.drop_last(), ids.drop_last(), mid) && #[trigger] kept(
                mid,
                diagrams.last().0,
                (true, diagrams.last().1),
                after,
            );
        let what = (true, diagrams.last().1);
        list::lemma_first_where(mid, showing(what));
        if let Some(i) = shown_at(mid, what) {
            assert((showing(what))(mid[i]));
        }
    }
}

/// A page is called by the name of its file.
pub proof fn a_page_is_called_by_its_file(dir: Seq<char>, name: Seq<char>)
    requires
        dir.len() > 0,
        dir.last() != '/',
        !(dir.len() >= 2 && dir.last() == '.' && dir[dir.len() - 2] == '/'),
        name.len() > 0 && !name.contains('/') && name != seq!['.'] && name != seq!['.', '.'],
    ensures
        label_of_page(paths::join(dir, name)) == name,
        label_of_page(name) == name,
{
    paths::a_joined_path_comes_apart(dir, name);
}

} // verus!
