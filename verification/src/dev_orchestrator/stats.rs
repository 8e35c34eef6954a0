//! How much memory the dev servers of each workspace take.

use vstd::prelude::*;

use crate::dev_orchestrator::config::OrchestratorConfig;
use crate::json;
use crate::json::{Json, JsonView};
use crate::text;

verus! {

/// The memory of one workspace's dev servers; 0 for one that does not run.
pub struct WorkspaceMemory {
    pub workspace_id: String,
    pub fe_mib: u64,
    pub be_mib: u64,
}

/// A fraction is read in units of which so many make one. Finer ones are not read.
pub const FRACTIONS: u128 = 1_000_000_000_000_000_000;

/// Where the first letter stands; the length where there is none.
pub open spec fn first_letter(s: Seq<char>) -> int
    decreases s.len(),
{
    if s.len() == 0 || text::is_ascii_letter(s[0]) {
        0
    } else {
        1 + first_letter(s.drop_first())
    }
}

/// The first digits behind the point, with zeros for those that are not there.
pub open spec fn fraction_digits(s: Seq<char>) -> Seq<char> {
    Seq::new(
        18,
        |i: int|
            if i < s.len() {
                s[i]
            } else {
                '0'
            },
    )
}

/// The number that a text spells: whether it is negative, what is before the point,
/// and the fraction.
pub open spec fn decimal_of(s: Seq<char>) -> Option<(bool, nat, nat)> {
    let signed = s.len() > 0 && (s[0] == '+' || s[0] == '-');
    let body = if signed {
        s.drop_first()
    } else {
        s
    };
    let dot = text::find_char(body, '.');
    let whole = body.take(dot);
    let fraction = if dot < body.len() {
        body.skip(dot + 1)
    } else {
        seq![]
    };
    if text::all_digits(whole) && text::all_digits(fraction) && whole.len() + fraction.len() > 0 {
        Some(
            (
                signed && s[0] == '-',
                text::number(whole),
                text::number(fraction_digits(fraction)),
            ),
        )
    } else {
        None
    }
}

/// What `q` and `r` parts of `d` come to as an integer: the nearest one, and the even
/// one where two are equally near.
pub open spec fn round_even(q: nat, r: nat, d: nat) -> nat {
    if 2 * r > d || (2 * r == d && q % 2 == 1) {
        q + 1
    } else {
        q
    }
}

/// The integer that is nearest to so many units of `num / den` each.
pub open spec fn nearest(whole: nat, fraction: nat, num: nat, den: nat) -> nat {
    let x = (whole * 1_000_000_000_000_000_000 + fraction) * num;
    let d = 1_000_000_000_000_000_000 * den;
    round_even(x / d, x % d, d)
}

/// A size in MiB, by its unit.
pub open spec fn mib_of(unit: Seq<char>, whole: nat, fraction: nat) -> Option<nat> {
    if unit == "B"@ {
        Some(nearest(whole, fraction, 1, 1_048_576))
    } else if unit == "KiB"@ || unit == "KB"@ {
        Some(nearest(whole, fraction, 1, 1024))
    } else if unit == "MiB"@ || unit == "MB"@ {
        Some(nearest(whole, fraction, 1, 1))
    } else if unit == "GiB"@ || unit == "GB"@ {
        Some(nearest(whole, fraction, 1024, 1))
    } else {
        None
    }
}

/// A number as far as it fits.
pub open spec fn capped(n: nat) -> u64 {
    if n > u64::MAX {
        u64::MAX
    } else {
        n as u64
    }
}

/// The size that docker reports as in use, in MiB: what is before the slash in
/// `1.192GiB / 15.6GiB`.
pub open spec fn usage_of(s: Seq<char>) -> Option<u64> {
    let left = text::trim(s.take(text::find_char(s, '/')));
    let i = first_letter(left);
    if i >= left.len() {
        None
    } else {
        match decimal_of(text::trim(left.take(i))) {
            Some((negative, whole, fraction)) => match mib_of(
                text::trim(left.skip(i)),
                whole,
                fraction,
            ) {
                Some(n) => Some(
                    if negative {
                        0
                    } else {
                        capped(n)
                    },
                ),
                None => None,
            },
            None => None,
        }
    }
}

/// Sizes that are larger than this are too large, whatever their unit.
const WHOLE_CAP: u128 = 1_000_000_000_000_000_000_000_000_000_000;

/// The number before the point, as far as it matters.
fn whole_digits(v: &[char]) -> (r: Option<u128>)
    ensures
        match r {
            Some(n) => text::all_digits(v@) && n == if text::number(v@) > WHOLE_CAP {
                WHOLE_CAP as nat
            } else {
                text::number(v@)
            },
            None => !text::all_digits(v@),
        },
{
    let mut n: u128 = 0;
    let mut i: usize = 0;
    assert(v@.take(0).len() == 0);
    while i < v.len()
        invariant
            i <= v.len(),
            n <= WHOLE_CAP,
            n == if text::number(v@.take(i as int)) > WHOLE_CAP {
                WHOLE_CAP as nat
            } else {
                text::number(v@.take(i as int))
            },
            forall|k: int| 0 <= k < i ==> text::is_digit(#[trigger] v@[k]),
        decreases v.len() - i,
    {
        let c: char = v[i];
        if !('0' <= c && c <= '9') {
            assert(!text::is_digit(v@[i as int]));
            return None;
        }
        proof {
            assert(v@.take(i + 1).drop_last() =~= v@.take(i as int));
            assert(v@.take(i + 1).last() == c);
        }
        let next: u128 = n * 10 + (c as u32 - 48) as u128;
        n = if next > WHOLE_CAP {
            WHOLE_CAP
        } else {
            next
        };
        i = i + 1;
    }
    assert(v@.take(i as int) =~= v@);
    Some(n)
}

proof fn lemma_fraction_bound(s: Seq<char>)
    requires
        text::all_digits(s),
    ensures
        text::number(s) < power(s.len()),
    decreases s.len(),
{
    if s.len() > 0 {
        assert(text::is_digit(s[s.len() - 1]));
        assert(text::all_digits(s.drop_last()));
        lemma_fraction_bound(s.drop_last());
    }
}

spec fn power(n: nat) -> nat
    decreases n,
{
    if n == 0 {
        1
    } else {
        10 * power((n - 1) as nat)
    }
}

/// The fraction behind the point.
fn fraction_of(v: &[char]) -> (r: u128)
    requires
        text::all_digits(v@),
    ensures
        r == text::number(fraction_digits(v@)),
        r < FRACTIONS,
{
    let ghost all = fraction_digits(v@);
    assert(text::all_digits(all));
    let mut n: u128 = 0;
    let mut i: usize = 0;
    assert(all.take(0).len() == 0);
    proof {
        assert(power(18) == 1_000_000_000_000_000_000) by {
            reveal_with_fuel(power, 19);
        }
        lemma_fraction_bound(all);
    }
    while i < 18
        invariant
            i <= 18,
            all == fraction_digits(v@),
            text::all_digits(all),
            text::number(all) < FRACTIONS,
            n == text::number(all.take(i as int)),
            n < FRACTIONS,
        decreases 18 - i,
    {
        assert(text::is_digit(all[i as int]));
        let d: u128 = if i < v.len() {
            (v[i] as u32 - 48) as u128
        } else {
            0
        };
        proof {
            assert(all.take(i + 1).drop_last() =~= all.take(i as int));
            assert(all.take(i + 1).last() == all[i as int]);
            text::lemma_number_bound(all, i + 1);
        }
        n = n * 10 + d;
        i = i + 1;
    }
    assert(all.take(18) =~= all);
    n
}

fn decimal(s: &str) -> (r: Option<(bool, u128, u128)>)
    ensures
        match r {
            Some((negative, w, f)) => {
                &&& decimal_of(s@) matches Some(d)
                &&& d.0 == negative
                &&& w == if d.1 > WHOLE_CAP {
                    WHOLE_CAP as nat
                } else {
                    d.1
                }
                &&& f == d.2
                &&& f < FRACTIONS
            },
            None => decimal_of(s@) is None,
        },
{
    let v = text::chars_of(s);
    let negative: bool = v.len() > 0 && v[0] == '-';
    let start: usize = if v.len() > 0 && (v[0] == '+' || v[0] == '-') {
        1
    } else {
        0
    };
    let body = text::piece(&v, start, v.len());
    let b = text::chars_of(&body);
    proof {
        assert(v@.skip(0) =~= v@);
        assert(start == 1 ==> body@ =~= v@.drop_first());
        assert(start == 0 ==> body@ =~= v@);
        assert(b@.skip(0) =~= b@);
    }
    let dot: usize = text::seek(&b, 0, '.');
    let left = text::chars_of(&text::piece(&b, 0, dot));
    assert(left@ =~= body@.take(dot as int));
    let right = if dot < b.len() {
        let r = text::chars_of(&text::piece(&b, dot + 1, b.len()));
        assert(r@ =~= body@.skip(dot + 1));
        r
    } else {
        let r: Vec<char> = Vec::new();
        assert(r@ =~= seq![]);
        r
    };
    if left.len() == 0 && right.len() == 0 {
        return None;
    }
    let w: u128 = match whole_digits(&left) {
        Some(w) => w,
        None => {
            return None;
        },
    };
    if whole_digits(&right).is_none() {
        return None;
    }
    let f: u128 = fraction_of(&right);
    Some((negative, w, f))
}

fn least(n: u128) -> (r: u64)
    ensures
        r == capped(n as nat),
{
    if n > u64::MAX as u128 {
        u64::MAX
    } else {
        n as u64
    }
}

/// In a unit of which `den` make a MiB.
proof fn lemma_smaller_unit(whole: nat, fraction: nat, den: nat)
    requires
        den > 0,
        fraction < FRACTIONS,
    ensures
        nearest(whole, fraction, 1, den) == round_even(
            whole / den,
            (whole % den) * 1_000_000_000_000_000_000 + fraction,
            1_000_000_000_000_000_000 * den,
        ),
{
    let f = 1_000_000_000_000_000_000int;
    let d = f * den;
    let q = whole as int / den as int;
    let rest = whole as int % den as int;
    let x = (whole * f + fraction) * 1;
    let r = rest * f + fraction;
    vstd::arithmetic::div_mod::lemma_fundamental_div_mod(whole as int, den as int);
    assert(x == q * d + r) by (nonlinear_arith)
        requires
            x == (whole * f + fraction) * 1,
            r == rest * f + fraction,
            whole == den * q + rest,
            d == f * den,
    ;
    assert(0 <= r < d) by (nonlinear_arith)
        requires
            r == rest * f + fraction,
            0 <= rest < den,
            0 <= fraction < f,
            d == f * den,
    ;
    vstd::arithmetic::div_mod::lemma_fundamental_div_mod_converse(x, d, q, r);
}

/// In a unit of `num` MiB.
proof fn lemma_larger_unit(whole: nat, fraction: nat, num: nat)
    ensures
        nearest(whole, fraction, num, 1) == round_even(
            whole * num + (fraction * num) / 1_000_000_000_000_000_000,
            (fraction * num) % 1_000_000_000_000_000_000,
            1_000_000_000_000_000_000,
        ),
{
    let f = 1_000_000_000_000_000_000int;
    let y = (fraction * num) as int;
    let q = y / f;
    let r = y % f;
    let x = (whole * f + fraction) * num;
    vstd::arithmetic::div_mod::lemma_fundamental_div_mod(y, f);
    assert(x == (whole * num + q) * f + r) by (nonlinear_arith)
        requires
            x == (whole * f + fraction) * num,
            y == fraction * num,
            y == f * q + r,
    ;
    vstd::arithmetic::div_mod::lemma_fundamental_div_mod_converse(x, f, whole * num + q, r);
}

fn rounded(q: u128, r: u128, d: u128) -> (n: u128)
    requires
        r < d,
        d <= 1_048_576_000_000_000_000_000_000,
        q <= 1_024_000_000_000_000_000_000_000_000_001_024,
    ensures
        n == round_even(q as nat, r as nat, d as nat),
{
    if 2 * r > d || (2 * r == d && q % 2 == 1) {
        q + 1
    } else {
        q
    }
}

fn size_in_mib(unit: &str, w: u128, f: u128, Ghost(whole): Ghost<nat>) -> (r: Option<u64>)
    requires
        w == if whole > WHOLE_CAP {
            WHOLE_CAP as nat
        } else {
            whole
        },
        f < FRACTIONS,
    ensures
        match mib_of(unit@, whole, f as nat) {
            Some(n) => r == Some(capped(n)),
            None => r is None,
        },
{
    let ghost frac = f as nat;
    if text::same(unit, "B") {
        proof {
            lemma_smaller_unit(whole, frac, 1_048_576);
        }
        Some(
            least(
                rounded(
                    w / 1_048_576,
                    (w % 1_048_576) * FRACTIONS + f,
                    1_048_576_000_000_000_000_000_000,
                ),
            ),
        )
    } else if text::same(unit, "KiB") || text::same(unit, "KB") {
        proof {
            lemma_smaller_unit(whole, frac, 1024);
        }
        Some(least(rounded(w / 1024, (w % 1024) * FRACTIONS + f, 1_024_000_000_000_000_000_000)))
    } else if text::same(unit, "MiB") || text::same(unit, "MB") {
        proof {
            lemma_larger_unit(whole, frac, 1);
        }
        Some(least(rounded(w + f / FRACTIONS, f % FRACTIONS, FRACTIONS)))
    } else if text::same(unit, "GiB") || text::same(unit, "GB") {
        proof {
            lemma_larger_unit(whole, frac, 1024);
        }
        Some(
            least(rounded(w * 1024 + (f * 1024) / FRACTIONS, (f * 1024) % FRACTIONS, FRACTIONS)),
        )
    } else {
        None
    }
}

/// The size that docker reports as in use, in MiB.
pub fn parse_mem_usage(s: &str) -> (r: Option<u64>)
    ensures
        r == usage_of(s@),
{
    let v = text::chars_of(s);
    assert(v@.skip(0) =~= v@);
    let slash: usize = text::seek(&v, 0, '/');
    let before = text::piece(&v, 0, slash);
    assert(before@ =~= s@.take(slash as int));
    let left = text::trimmed(&before);
    let l = text::chars_of(&left);
    let mut i: usize = 0;
    assert(l@.skip(0) =~= l@);
    while i < l.len() && !(('a' <= l[i] && l[i] <= 'z') || ('A' <= l[i] && l[i] <= 'Z'))
        invariant
            i <= l.len(),
            first_letter(l@) == i + first_letter(l@.skip(i as int)),
        decreases l.len() - i,
    {
        assert(l@.skip(i as int).drop_first() =~= l@.skip(i + 1));
        i = i + 1;
    }
    if i >= l.len() {
        return None;
    }
    let num = text::piece(&l, 0, i);
    let unit = text::piece(&l, i, l.len());
    assert(num@ =~= left@.take(i as int));
    assert(unit@ =~= left@.skip(i as int));
    let (negative, w, f) = match decimal(&text::trimmed(&num)) {
        Some(d) => d,
        None => {
            return None;
        },
    };
    let ghost whole = decimal_of(text::trim(num@))->Some_0.1;
    match size_in_mib(&text::trimmed(&unit), w, f, Ghost(whole)) {
        Some(n) => Some(
            if negative {
                0
            } else {
                n
            },
        ),
        None => None,
    }
}

/// The text in a field of a JSON object; empty where there is none.
pub open spec fn text_in(doc: JsonView, key: Seq<char>) -> Seq<char> {
    match doc {
        JsonView::Object(o) => match json::get(o, key) {
            Some(JsonView::Str(s)) => s,
            _ => seq![],
        },
        _ => seq![],
    }
}

/// Whose memory a line of docker's is about, and how much it is in MiB.
pub open spec fn container_usage(doc: JsonView) -> (Seq<char>, Option<u64>) {
    (text_in(doc, "Name"@), usage_of(text_in(doc, "MemUsage"@)))
}

fn field_text(doc: &Json, key: &str) -> (r: String)
    ensures
        r@ == text_in(doc@, key@),
{
    proof {
        json::lemma_shown(*doc);
    }
    if let Json::Object(o) = doc {
        if let Some(i) = json::find(o, key) {
            proof {
                json::lemma_shown(o@[i as int].1);
                assert(json::members(o@)[i as int] == (o@[i as int].0@, o@[i as int].1@));
            }
            if let Json::Str(s) = &o[i].1 {
                return s.clone();
            }
        }
    }
    let empty = String::new();
    assert(empty@ =~= seq![]);
    empty
}

/// Reads what docker says of one container.
pub fn read_container(doc: &Json) -> (r: (String, Option<u64>))
    ensures
        (r.0@, r.1) == container_usage(doc@),
{
    let name = field_text(doc, "Name");
    let usage = field_text(doc, "MemUsage");
    (name, parse_mem_usage(&usage))
}

/// How much memory a container takes by docker's lines, in MiB: what the last line
/// about it says that can be read.
pub open spec fn container_mib(lines: Seq<Seq<char>>, name: Seq<char>) -> u64
    decreases lines.len(),
{
    if lines.len() == 0 {
        0
    } else {
        let before = container_mib(lines.drop_last(), name);
        match json::json_of(lines.last()) {
            Ok(doc) => match container_usage(doc) {
                (n, Some(mib)) => if n == name {
                    mib
                } else {
                    before
                },
                _ => before,
            },
            Err(_) => before,
        }
    }
}

/// How much memory a container takes by what `docker stats` printed.
fn docker_stats_mib(lines: &[String], name: &str) -> (r: u64)
    ensures
        r == container_mib(text::views(lines@), name@),
{
    let ghost all = text::views(lines@);
    let mut n: u64 = 0;
    let mut i: usize = 0;
    assert(all.take(0).len() == 0);
    while i < lines.len()
        invariant
            i <= lines.len(),
            all == text::views(lines@),
            n == container_mib(all.take(i as int), name@),
        decreases lines.len() - i,
    {
        proof {
            assert(all.take(i + 1).drop_last() =~= all.take(i as int));
            assert(all.take(i + 1).last() == lines@[i as int]@);
        }
        if let Ok(doc) = json::parse(&lines[i]) {
            let (whose, usage) = read_container(&doc);
            if let Some(mib) = usage {
                if text::same(&whose, name) {
                    n = mib;
                }
            }
        }
        i = i + 1;
    }
    assert(all.take(i as int) =~= all);
    n
}

/// The resident size and the command in a line of `ps`: the second of its words, and
/// what follows it. White space of any length stands between them.
pub open spec fn process_in(line: Seq<char>) -> Option<(Seq<char>, Seq<char>)> {
    let t = text::trim_start(line);
    let rest = text::trim_start(t.skip(text::find_white(t)));
    let k = text::find_white(rest);
    let cmd = text::trim_start(rest.skip(k));
    if cmd.len() == 0 {
        None
    } else {
        Some((rest.take(k), cmd))
    }
}

/// How much memory a line of `ps` adds to a frontend, in MiB.
pub open spec fn line_mib(line: Seq<char>, fe_dir: Seq<char>) -> nat {
    match process_in(line) {
        Some((rss, cmd)) => if text::contains(cmd, "rspack serve"@) && text::contains(cmd, fe_dir) {
            match text::parse_uint(rss, u64::MAX as nat) {
                Some(kib) => kib / 1024,
                None => 0,
            }
        } else {
            0
        },
        None => 0,
    }
}

/// How much memory a frontend takes by the lines of `ps`, in MiB.
pub open spec fn frontend_mib(lines: Seq<Seq<char>>, fe_dir: Seq<char>) -> nat
    decreases lines.len(),
{
    if lines.len() == 0 {
        0
    } else {
        frontend_mib(lines.drop_last(), fe_dir) + line_mib(lines.last(), fe_dir)
    }
}

fn line_size(line: &str, fe_dir: &str) -> (r: u64)
    ensures
        r == line_mib(line@, fe_dir@),
{
    let t = text::trimmed_start(line);
    let (_, behind) = cut_at_white(&t);
    let rest = text::trimmed_start(&behind);
    let (rss, behind) = cut_at_white(&rest);
    let cmd = text::trimmed_start(&behind);
    if cmd.as_str().is_empty() {
        return 0;
    }
    if !text::holds(&cmd, "rspack serve") || !text::holds(&cmd, fe_dir) {
        return 0;
    }
    match text::parsed_uint(&rss, u64::MAX) {
        Some(kib) => kib / 1024,
        None => 0,
    }
}

fn cut_at_white(t: &str) -> (r: (String, String))
    ensures
        r.0@ == t@.take(text::find_white(t@)),
        r.1@ == t@.skip(text::find_white(t@)),
{
    let v = text::chars_of(t);
    let mut i: usize = 0;
    while i < v.len() && !text::white(v[i])
        invariant
            i <= v.len(),
            forall|k: int| 0 <= k < i ==> !text::is_white(#[trigger] v@[k]),
        decreases v.len() - i,
    {
        i = i + 1;
    }
    proof {
        text::lemma_find_white(v@, i as int);
    }
    (text::piece(&v, 0, i), text::piece(&v, i, v.len()))
}

/// How much memory a frontend takes by what `ps` printed.
fn rspack_ram_by_fe_dir(lines: &[String], fe_dir: &str) -> (r: u64)
    ensures
        r == capped(frontend_mib(text::views(lines@), fe_dir@)),
{
    let ghost all = text::views(lines@);
    let mut n: u64 = 0;
    let mut i: usize = 0;
    assert(frontend_mib(all.take(0), fe_dir@) == 0);
    while i < lines.len()
        invariant
            i <= lines.len(),
            all == text::views(lines@),
            n == capped(frontend_mib(all.take(i as int), fe_dir@)),
        decreases lines.len() - i,
    {
        proof {
            assert(all.take(i + 1).drop_last() =~= all.take(i as int));
            assert(all.take(i + 1).last() == lines@[i as int]@);
        }
        let mib: u64 = line_size(&lines[i], fe_dir);
        n = least(n as u128 + mib as u128);
        i = i + 1;
    }
    assert(all.take(i as int) =~= all);
    n
}

/// The lines of what a command printed; none where it did not run.
pub open spec fn lines_of(out: Option<Seq<char>>) -> Seq<Seq<char>> {
    match out {
        Some(s) => text::lines(s),
        None => seq![],
    }
}

/// Whether this is the memory of a workspace's dev servers.
pub open spec fn is_memory_of(
    m: WorkspaceMemory,
    cfg: OrchestratorConfig,
    w: (String, String, String),
    docker: Seq<Seq<char>>,
    ps: Seq<Seq<char>>,
) -> bool {
    &&& m.workspace_id@ == w.0@
    &&& m.be_mib == container_mib(docker, cfg.container_of(w.1@))
    &&& m.fe_mib == capped(frontend_mib(ps, w.2@))
}

fn printed_lines(out: Option<&str>) -> (r: Vec<String>)
    ensures
        text::views(r@) == lines_of(text::given(out)),
{
    match out {
        Some(s) => text::split_lines(s),
        None => {
            let none: Vec<String> = Vec::new();
            assert(text::views(none@) =~= seq![]);
            none
        },
    }
}

/// The memory of each workspace's dev servers, by what `docker stats` and `ps`
/// printed. Each is `None` where the command did not run.
pub fn workspace_memory(
    cfg: &OrchestratorConfig,
    workspaces: &[(String, String, String)],
    docker: Option<&str>,
    ps: Option<&str>,
) -> (r: Vec<WorkspaceMemory>)
    ensures
        r@.len() == workspaces@.len(),
        forall|i: int|
            0 <= i < r@.len() ==> is_memory_of(
                #[trigger] r@[i],
                *cfg,
                workspaces@[i],
                lines_of(text::given(docker)),
                lines_of(text::given(ps)),
            ),
{
    let stats = printed_lines(docker);
    let processes = printed_lines(ps);
    let mut out: Vec<WorkspaceMemory> = Vec::new();
    let mut i: usize = 0;
    while i < workspaces.len()
        invariant
            i <= workspaces.len(),
            out@.len() == i,
            text::views(stats@) == lines_of(text::given(docker)),
            text::views(processes@) == lines_of(text::given(ps)),
            forall|k: int|
                0 <= k < i ==> is_memory_of(
                    #[trigger] out@[k],
                    *cfg,
                    workspaces@[k],
                        lines_of(text::given(docker)),
                    lines_of(text::given(ps)),
                ),
        decreases workspaces.len() - i,
    {
        let w = &workspaces[i];
        let m = WorkspaceMemory {
            workspace_id: w.0.clone(),
            fe_mib: rspack_ram_by_fe_dir(&processes, &w.2),
            be_mib: docker_stats_mib(&stats, &cfg.be_container(&w.1)),
        };
        out.push(m);
        i = i + 1;
    }
    out
}

/// A size is told to the nearest mebibyte: it is off by half of one at most, and where it
/// lies right between two, it is the even one.
pub proof fn sizes_are_rounded_to_the_nearest(whole: nat, fraction: nat, num: nat, den: nat)
    requires
        den > 0,
    ensures
        ({
            let x = (whole * 1_000_000_000_000_000_000 + fraction) * num;
            let d = 1_000_000_000_000_000_000 * den;
            let n = nearest(whole, fraction, num, den);
            &&& 2 * (n * d) <= 2 * x + d
            &&& 2 * x <= 2 * (n * d) + d
            &&& (2 * (n * d) == 2 * x + d || 2 * x == 2 * (n * d) + d) ==> n % 2 == 0
        }),
{
    let x = (whole * 1_000_000_000_000_000_000 + fraction) * num;
    let d = 1_000_000_000_000_000_000 * den;
    let q = x / d;
    let r = x % d;
    vstd::arithmetic::div_mod::lemma_fundamental_div_mod(x as int, d as int);
    assert(x == q * d + r) by {
        assert(d * q == q * d) by (nonlinear_arith);
    }
    assert(r < d);
    let n = nearest(whole, fraction, num, den);
    assert((q + 1) * d == q * d + d) by (nonlinear_arith);
}

proof fn lemma_exact(n: nat, whole: nat, num: nat, den: nat)
    requires
        den == 1 || den == 1024 || den == 1_048_576,
        num == 1 || num == 1024,
        whole * num == n * den,
    ensures
        nearest(whole, 0, num, den) == n,
{
    sizes_are_rounded_to_the_nearest(whole, 0, num, den);
    let m = nearest(whole, 0, num, den);
    let d = 1_000_000_000_000_000_000 * den;
    let x = (whole * 1_000_000_000_000_000_000 + 0) * num;
    assert(x == n * d) by (nonlinear_arith)
        requires
            x == (whole * 1_000_000_000_000_000_000 + 0) * num,
            d == 1_000_000_000_000_000_000 * den,
            whole * num == n * den,
    ;
    if m > n {
        assert((m - n) * d >= d && m * d == n * d + (m - n) * d) by (nonlinear_arith)
            requires
                m > n,
                d > 0,
        ;
    } else if m < n {
        assert((n - m) * d >= d && n * d == m * d + (n - m) * d) by (nonlinear_arith)
            requires
                m < n,
                d > 0,
        ;
    }
}

/// A unit says how many of it make a mebibyte, or how many mebibytes it makes: so whole
/// mebibytes are told as they are in any of them. A unit that is none of these tells
/// nothing.
pub proof fn what_a_unit_is_worth(n: nat, unit: Seq<char>, fraction: nat)
    ensures
        mib_of("MiB"@, n, 0) == Some(n) && mib_of("MB"@, n, 0) == Some(n),
        mib_of("GiB"@, n, 0) == Some(1024 * n) && mib_of("GB"@, n, 0) == Some(1024 * n),
        mib_of("KiB"@, 1024 * n, 0) == Some(n) && mib_of("KB"@, 1024 * n, 0) == Some(n),
        mib_of("B"@, 1_048_576 * n, 0) == Some(n),
        mib_of(unit, n, fraction) is Some <==> unit == "B"@ || unit == "KiB"@ || unit == "KB"@
            || unit == "MiB"@ || unit == "MB"@ || unit == "GiB"@ || unit == "GB"@,
{
    reveal_strlit("B");
    reveal_strlit("KiB");
    reveal_strlit("KB");
    reveal_strlit("MiB");
    reveal_strlit("MB");
    reveal_strlit("GiB");
    reveal_strlit("GB");
    assert("B"@.len() == 1 && "KB"@.len() == 2 && "MB"@.len() == 2 && "GB"@.len() == 2);
    assert("KiB"@.len() == 3 && "MiB"@.len() == 3 && "GiB"@.len() == 3);
    assert("KiB"@[0] == 'K' && "MiB"@[0] == 'M' && "GiB"@[0] == 'G');
    assert("KB"@[0] == 'K' && "MB"@[0] == 'M' && "GB"@[0] == 'G');
    lemma_exact(n, n, 1, 1);
    lemma_exact(1024 * n, n, 1024, 1);
    lemma_exact(n, 1024 * n, 1, 1024);
    lemma_exact(n, 1_048_576 * n, 1, 1_048_576);
}

proof fn lemma_zeros(s: Seq<char>)
    requires
        forall|i: int| 0 <= i < s.len() ==> #[trigger] s[i] == '0',
    ensures
        text::number(s) == 0,
    decreases s.len(),
{
    if s.len() > 0 {
        assert(s[s.len() - 1] == '0');
        lemma_zeros(s.drop_last());
    }
}

proof fn lemma_whole(n: nat)
    ensures
        decimal_of(text::dec(n)) == Some((false, n, 0nat)),
{
    let d = text::dec(n);
    text::lemma_dec_digits(n);
    text::lemma_number_of_dec(n);
    assert(text::is_digit(d[0]));
    assert forall|i: int| 0 <= i < d.len() implies d[i] != '.' by {
        assert(text::is_digit(d[i]));
    }
    text::lemma_find_char(d, '.', d.len() as int);
    assert(d.take(d.len() as int) =~= d);
    lemma_zeros(fraction_digits(seq![]));
}

/// A number with a sign and a fraction is read for what it is; one digit is enough, on
/// either side of the dot, and no text without digits is a number.
pub proof fn how_a_decimal_is_read(n: nat, fraction: Seq<char>, s: Seq<char>)
    requires
        forall|i: int| 0 <= i < fraction.len() ==> '0' <= #[trigger] fraction[i] <= '9',
    ensures
        decimal_of(text::dec(n)) == Some((false, n, 0nat)),
        decimal_of(seq!['-'] + text::dec(n)) == Some((true, n, 0nat)),
        decimal_of(seq!['+'] + text::dec(n)) == Some((false, n, 0nat)),
        decimal_of(text::dec(n) + seq!['.'] + fraction) matches Some((minus, whole, _)) && !minus
            && whole == n,
        decimal_of(s) is Some ==> exists|i: int| 0 <= i < s.len() && '0' <= #[trigger] s[i] <= '9',
{
    lemma_whole(n);
    let d = text::dec(n);
    text::lemma_dec_digits(n);
    text::lemma_number_of_dec(n);
    assert(text::is_digit(d[0]));
    let a = seq!['-'] + d;
    let b = seq!['+'] + d;
    assert(a.drop_first() =~= d);
    assert(b.drop_first() =~= d);
    assert forall|i: int| 0 <= i < d.len() implies d[i] != '.' by {
        assert(text::is_digit(d[i]));
    }
    text::lemma_find_char(d, '.', d.len() as int);
    assert(d.take(d.len() as int) =~= d);
    let c = d + seq!['.'] + fraction;
    assert(c[0] == d[0]);
    text::lemma_find_char(c, '.', d.len() as int);
    assert(c.take(d.len() as int) =~= d);
    assert(c.skip(d.len() as int + 1) =~= fraction);
    if decimal_of(s) is Some {
        let signed = s.len() > 0 && (s[0] == '+' || s[0] == '-');
        let body = if signed {
            s.drop_first()
        } else {
            s
        };
        let off: int = if signed {
            1
        } else {
            0
        };
        text::lemma_find_char_bounds(body, '.');
        let dot = text::find_char(body, '.');
        let whole = body.take(dot);
        if whole.len() > 0 {
            assert(text::is_digit(whole[0]));
            assert(s[off] == whole[0]);
        } else {
            let f = body.skip(dot + 1);
            assert(text::is_digit(f[0]));
            assert(s[off + dot + 1] == f[0]);
        }
    }
}

proof fn lemma_first_letter(s: Seq<char>, i: int)
    requires
        0 <= i <= s.len(),
        forall|k: int| 0 <= k < i ==> !text::is_ascii_letter(#[trigger] s[k]),
        i < s.len() ==> text::is_ascii_letter(s[i]),
    ensures
        first_letter(s) == i,
    decreases i,
{
    if i > 0 {
        assert(!text::is_ascii_letter(s[0]));
        lemma_first_letter(s.drop_first(), i - 1);
    }
}

/// What a container uses is the number before the slash, in the unit behind that number;
/// what stands behind the slash, its limit, does not count.
pub proof fn usage_stands_before_the_slash(n: nat, unit: Seq<char>, limit: Seq<char>)
    requires
        unit.len() > 0,
        forall|i: int| 0 <= i < unit.len() ==> text::is_ascii_letter(#[trigger] unit[i]),
        1024 * n <= u64::MAX,
    ensures
        unit == "MiB"@ ==> usage_of(text::dec(n) + unit + seq![' ', '/', ' '] + limit) == Some(
            n as u64,
        ),
        unit == "GiB"@ ==> usage_of(text::dec(n) + unit + seq![' ', '/', ' '] + limit) == Some(
            (1024 * n) as u64,
        ),
        usage_of(text::dec(n) + unit + seq![' ', '/', ' '] + limit) is Some <==> unit == "B"@
            || unit == "KiB"@ || unit == "KB"@ || unit == "MiB"@ || unit == "MB"@ || unit == "GiB"@
            || unit == "GB"@,
{
    let d = text::dec(n);
    let m = d.len() as int;
    let e: Seq<char> = seq![];
    text::lemma_dec_digits(n);
    let core = d + unit;
    let s = core + seq![' ', '/', ' '] + limit;
    assert(d + unit + seq![' ', '/', ' '] + limit =~= s);
    let at = core.len() as int + 1;
    assert forall|k: int| 0 <= k < at implies s[k] != '/' by {
        if k < m {
            assert(text::is_digit(d[k]));
            assert(s[k] == d[k]);
        } else if k < core.len() {
            assert(text::is_ascii_letter(unit[k - m]));
            assert(s[k] == unit[k - m]);
        }
    }
    assert(s[at] == '/');
    text::lemma_find_char(s, '/', at);
    assert(s.take(at) =~= e + core + seq![' ']);
    assert(text::is_digit(d[0]));
    assert(text::is_ascii_letter(unit[unit.len() - 1]));
    assert(core[0] == d[0] && core.last() == unit.last());
    text::trimming_takes_off_white_space(e, core, seq![' ']);
    assert forall|k: int| 0 <= k < m implies !text::is_ascii_letter(#[trigger] core[k]) by {
        assert(text::is_digit(d[k]));
    }
    assert(core[m] == unit[0]);
    assert(text::is_ascii_letter(unit[0]));
    lemma_first_letter(core, m);
    assert(core.take(m) =~= d);
    assert(core.skip(m) =~= unit);
    assert(text::is_digit(d[m - 1]));
    text::trimming_takes_off_white_space(e, d, e);
    assert(e + d + e =~= d);
    text::trimming_takes_off_white_space(e, unit, e);
    assert(e + unit + e =~= unit);
    lemma_whole(n);
    what_a_unit_is_worth(n, unit, 0);
}

proof fn lemma_gap(gap: Seq<char>, s: Seq<char>)
    requires
        forall|i: int| 0 <= i < gap.len() ==> text::is_white(#[trigger] gap[i]),
        s.len() > 0 && !text::is_white(s[0]),
    ensures
        text::trim_start(gap + s) == s,
    decreases gap.len(),
{
    if gap.len() == 0 {
        assert(gap + s =~= s);
    } else {
        assert(text::is_white(gap[0]));
        assert((gap + s).drop_first() =~= gap.drop_first() + s);
        lemma_gap(gap.drop_first(), s);
    }
}

/// A process is listed by its number, its size and its command, with white space between
/// them: the second word is its size, and all that follows is its command.
pub proof fn a_process_is_listed_with_its_size(
    pad: Seq<char>,
    pid: Seq<char>,
    gap: Seq<char>,
    size: Seq<char>,
    gap2: Seq<char>,
    cmd: Seq<char>,
)
    requires
        forall|i: int| 0 <= i < pad.len() ==> text::is_white(#[trigger] pad[i]),
        pid.len() > 0 && forall|i: int| 0 <= i < pid.len() ==> !text::is_white(#[trigger] pid[i]),
        gap.len() > 0 && forall|i: int| 0 <= i < gap.len() ==> text::is_white(#[trigger] gap[i]),
        size.len() > 0 && forall|i: int| 0 <= i < size.len() ==> !text::is_white(#[trigger] size[i]),
        gap2.len() > 0 && forall|i: int| 0 <= i < gap2.len() ==> text::is_white(#[trigger] gap2[i]),
        cmd.len() > 0 && !text::is_white(cmd[0]),
    ensures
        process_in(pad + pid + gap + size + gap2 + cmd) == Some((size, cmd)),
{
    let b = size + gap2 + cmd;
    let a = pid + gap + b;
    let line = pad + pid + gap + size + gap2 + cmd;
    assert(line =~= pad + a);
    assert(!text::is_white(pid[0]));
    assert(a[0] == pid[0]);
    lemma_gap(pad, a);
    assert forall|k: int| 0 <= k < pid.len() implies !text::is_white(a[k]) by {
        assert(a[k] == pid[k]);
    }
    assert(text::is_white(gap[0]));
    assert(a[pid.len() as int] == gap[0]);
    text::lemma_find_white(a, pid.len() as int);
    assert(a.skip(pid.len() as int) =~= gap + b);
    assert(!text::is_white(size[0]));
    assert(b[0] == size[0]);
    lemma_gap(gap, b);
    assert forall|k: int| 0 <= k < size.len() implies !text::is_white(b[k]) by {
        assert(b[k] == size[k]);
    }
    assert(text::is_white(gap2[0]));
    assert(b[size.len() as int] == gap2[0]);
    text::lemma_find_white(b, size.len() as int);
    assert(b.take(size.len() as int) =~= size);
    assert(b.skip(size.len() as int) =~= gap2 + cmd);
    lemma_gap(gap2, cmd);
}

/// A frontend takes what its bundlers take together: a process adds its size, in whole
/// mebibytes, where its command serves the bundle and names the frontend's directory,
/// and adds nothing where it does either not.
pub proof fn a_frontend_takes_what_its_bundlers_take(
    lines: Seq<Seq<char>>,
    pid: Seq<char>,
    kib: nat,
    cmd: Seq<char>,
    fe_dir: Seq<char>,
)
    requires
        pid.len() > 0 && forall|i: int| 0 <= i < pid.len() ==> !text::is_white(#[trigger] pid[i]),
        kib <= u64::MAX,
        cmd.len() > 0 && !text::is_white(cmd[0]),
    ensures
        frontend_mib(
            lines.push(pid + seq![' '] + text::dec(kib) + seq![' '] + cmd),
            fe_dir,
        ) == frontend_mib(lines, fe_dir) + (if text::contains(cmd, "rspack serve"@)
            && text::contains(cmd, fe_dir) {
            kib / 1024
        } else {
            0
        }),
        frontend_mib(seq![], fe_dir) == 0,
{
    let e: Seq<char> = seq![];
    let d = text::dec(kib);
    let line = pid + seq![' '] + d + seq![' '] + cmd;
    text::lemma_dec_digits(kib);
    assert forall|i: int| 0 <= i < d.len() implies !text::is_white(#[trigger] d[i]) by {
        assert(text::is_digit(d[i]));
    }
    a_process_is_listed_with_its_size(e, pid, seq![' '], d, seq![' '], cmd);
    assert(e + pid + seq![' '] + d + seq![' '] + cmd =~= line);
    text::numbers_are_read_back(kib, u64::MAX as nat, d);
    assert(lines.push(line).drop_last() =~= lines);
}

/// A backend takes what the last line about its container says, and nothing where no
/// line is about it: a line about another container, and one that is not read, changes
/// nothing.
pub proof fn a_backend_takes_what_its_container_takes(
    lines: Seq<Seq<char>>,
    line: Seq<char>,
    o: Seq<(Seq<char>, JsonView)>,
    called: Seq<char>,
    usage: Seq<char>,
    name: Seq<char>,
)
    requires
        json::get(o, "Name"@) == Some(JsonView::Str(called)),
        json::get(o, "MemUsage"@) == Some(JsonView::Str(usage)),
    ensures
        json::reads_as(line, JsonView::Object(o)) ==> container_mib(lines.push(line), name) == (if
        called == name && usage_of(usage) is Some {
            usage_of(usage)->0
        } else {
            container_mib(lines, name)
        }),
        json::json_of(line) is Err ==> container_mib(lines.push(line), name) == container_mib(
            lines,
            name,
        ),
        container_mib(seq![], name) == 0,
{
    assert(lines.push(line).drop_last() =~= lines);
    assert(lines.push(line).last() == line);
    if let Ok(doc) = json::json_of(line) {
        if doc == JsonView::Object(o) {
            assert(container_usage(doc) == (called, usage_of(usage)));
        }
    }
}

/// A fraction is read digit by digit, of which eighteen count: a zero behind it changes
/// nothing, and eighteen digits are the number that they spell.
pub proof fn how_a_fraction_is_read(n: nat, fraction: Seq<char>)
    requires
        forall|i: int| 0 <= i < fraction.len() ==> '0' <= #[trigger] fraction[i] <= '9',
    ensures
        fraction.len() < 18 ==> decimal_of(text::dec(n) + seq!['.'] + fraction) == decimal_of(
            text::dec(n) + seq!['.'] + fraction.push('0'),
        ),
        fraction.len() == 18 ==> decimal_of(text::dec(n) + seq!['.'] + fraction) == Some(
            (false, n, text::number(fraction)),
        ),
{
    lemma_fraction(n, fraction);
    lemma_fraction(n, fraction.push('0'));
    if fraction.len() < 18 {
        assert(fraction_digits(fraction) =~= fraction_digits(fraction.push('0')));
    } else if fraction.len() == 18 {
        assert(fraction_digits(fraction) =~= fraction);
    }
}

proof fn lemma_fraction(n: nat, fraction: Seq<char>)
    requires
        forall|i: int| 0 <= i < fraction.len() ==> '0' <= #[trigger] fraction[i] <= '9',
    ensures
        decimal_of(text::dec(n) + seq!['.'] + fraction) == Some(
            (false, n, text::number(fraction_digits(fraction))),
        ),
{
    let d = text::dec(n);
    text::lemma_dec_digits(n);
    text::lemma_number_of_dec(n);
    assert(text::is_digit(d[0]));
    let c = d + seq!['.'] + fraction;
    assert forall|i: int| 0 <= i < d.len() implies c[i] != '.' by {
        assert(text::is_digit(d[i]));
    }
    assert(c[0] == d[0]);
    text::lemma_find_char(c, '.', d.len() as int);
    assert(c.take(d.len() as int) =~= d);
    assert(c.skip(d.len() as int + 1) =~= fraction);
}

/// The memory of a workspace is that of its own container, by the name that the template
/// gives it, and that of the bundlers in its own frontend.
pub proof fn memory_is_told_by_workspace(
    m: WorkspaceMemory,
    cfg: OrchestratorConfig,
    w: (String, String, String),
    docker: Seq<Seq<char>>,
    ps: Seq<Seq<char>>,
)
    requires
        is_memory_of(m, cfg, w, docker, ps),
    ensures
        m.workspace_id@ == w.0@,
        m.be_mib == container_mib(docker, cfg.container_of(w.1@)),
        frontend_mib(ps, w.2@) <= u64::MAX ==> m.fe_mib == frontend_mib(ps, w.2@),
        frontend_mib(ps, w.2@) > u64::MAX ==> m.fe_mib == u64::MAX,
{
}

} // verus!
