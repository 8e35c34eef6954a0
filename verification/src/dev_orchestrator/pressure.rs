//! How much memory the machine has left.

use vstd::prelude::*;

use crate::text;

verus! {

/// What the system says of its own memory.
#[derive(Debug, Clone, Copy, PartialEq, Eq, Structural)]
pub enum Pressure {
    Normal,
    Warning,
    Critical,
    /// The system did not say, or said something else.
    Unknown,
}

impl Default for Pressure {
    fn default() -> (r: Self)
        ensures
            r == Pressure::Normal,
    {
        Pressure::Normal
    }
}

/// The machine's memory.
#[derive(Debug, Clone, Copy)]
pub struct SystemMemory {
    pub level: Pressure,
    /// What share of it is free, in percent.
    pub free_pct: u8,
    pub free_mib: u64,
    pub total_mib: u64,
}

/// The level that a text stands for.
pub open spec fn level_of(out: Option<Seq<char>>) -> Pressure {
    match out {
        None => Pressure::Unknown,
        Some(s) => {
            let t = text::trim(s);
            if t == "1"@ {
                Pressure::Normal
            } else if t == "2"@ {
                Pressure::Warning
            } else if t == "4"@ {
                Pressure::Critical
            } else {
                Pressure::Unknown
            }
        },
    }
}

/// The level by what `sysctl` printed, if it ran.
pub fn current_level(out: Option<&str>) -> (r: Pressure)
    ensures
        r == level_of(text::given(out)),
{
    let t = match out {
        Some(s) => text::trimmed(s),
        None => {
            return Pressure::Unknown;
        },
    };
    if text::same(&t, "1") {
        Pressure::Normal
    } else if text::same(&t, "2") {
        Pressure::Warning
    } else if text::same(&t, "4") {
        Pressure::Critical
    } else {
        Pressure::Unknown
    }
}

/// The counts of pages that make up the memory in use.
pub struct Pages {
    /// The size of a page in bytes.
    pub size: u64,
    pub anonymous: u64,
    pub wired: u64,
    pub compressed: u64,
}

/// What is counted before anything was read.
pub open spec fn no_pages() -> Pages {
    Pages { size: 16384, anonymous: 0, wired: 0, compressed: 0 }
}

/// The number that a count is written as: `1,234.`, say.
pub open spec fn count_in(value: Seq<char>) -> Option<nat> {
    text::parse_uint(
        text::replace(without_dots(text::trim(value)), ","@, seq![]),
        u64::MAX as nat,
    )
}

/// A text without full stops at its end.
pub open spec fn without_dots(s: Seq<char>) -> Seq<char>
    decreases s.len(),
{
    if s.len() > 0 && s.last() == '.' {
        without_dots(s.drop_last())
    } else {
        s
    }
}

/// The counts once another line was read.
pub open spec fn after_line(p: Pages, line: Seq<char>) -> Pages {
    match text::strip_prefix(line, "Mach Virtual Memory Statistics: (page size of "@) {
        Some(rest) => {
            let words = text::words(rest);
            if words.len() > 0 {
                match text::parse_uint(words[0], u64::MAX as nat) {
                    Some(n) => Pages { size: n as u64, ..p },
                    None => p,
                }
            } else {
                p
            }
        },
        None => {
            let i = text::find_char(line, ':');
            if i < line.len() {
                let name = text::trim(line.take(i));
                match count_in(line.skip(i + 1)) {
                    Some(n) => if name == "Anonymous pages"@ {
                        Pages { anonymous: n as u64, ..p }
                    } else if name == "Pages wired down"@ {
                        Pages { wired: n as u64, ..p }
                    } else if name == "Pages occupied by compressor"@ {
                        Pages { compressed: n as u64, ..p }
                    } else {
                        p
                    },
                    None => p,
                }
            } else {
                p
            }
        },
    }
}

/// The counts that some lines give.
pub open spec fn pages_in(lines: Seq<Seq<char>>) -> Pages
    decreases lines.len(),
{
    if lines.len() == 0 {
        no_pages()
    } else {
        after_line(pages_in(lines.drop_last()), lines.last())
    }
}

/// The memory in use, in MiB. It is cut off where it would not fit.
pub open spec fn used_of(p: Pages) -> nat {
    let bytes = (p.anonymous + p.wired + p.compressed) * p.size;
    if bytes > u64::MAX {
        u64::MAX as nat / 1024 / 1024
    } else {
        bytes as nat / 1024 / 1024
    }
}

fn read_count(value: &str) -> (r: Option<u64>)
    ensures
        match r {
            Some(n) => count_in(value@) == Some(n as nat),
            None => count_in(value@) is None,
        },
{
    let t = text::trimmed(value);
    let v = text::chars_of(&t);
    let mut n: usize = v.len();
    assert(v@.take(n as int) =~= v@);
    while n > 0 && v[n - 1] == '.'
        invariant
            n <= v.len(),
            without_dots(v@) == without_dots(v@.take(n as int)),
        decreases n,
    {
        assert(v@.take(n as int).drop_last() =~= v@.take(n - 1));
        n = n - 1;
    }
    let bare = text::piece(&v, 0, n);
    assert(bare@ =~= v@.take(n as int));
    proof {
        reveal_strlit(",");
        reveal_strlit("");
        assert(""@ =~= seq![]);
    }
    text::parsed_uint(&text::replaced(&bare, ",", ""), u64::MAX)
}

fn read_line(p: Pages, line: &str) -> (r: Pages)
    ensures
        r == after_line(p, line@),
{
    if let Some(rest) = text::without_prefix(
        line,
        "Mach Virtual Memory Statistics: (page size of ",
    ) {
        let words = text::split_words(&rest);
        let ghost all = text::words(rest@);
        assert(words@.len() == all.len());
        if words.len() > 0 {
            assert(all[0] == words@[0]@);
            if let Some(n) = text::parsed_uint(&words[0], u64::MAX) {
                return Pages { size: n, ..p };
            }
        }
        return p;
    }
    let v = text::chars_of(line);
    assert(v@.skip(0) =~= v@);
    let i: usize = text::seek(&v, 0, ':');
    if i < v.len() {
        let before = text::piece(&v, 0, i);
        let after = text::piece(&v, i + 1, v.len());
        assert(before@ =~= line@.take(i as int));
        assert(after@ =~= line@.skip(i + 1));
        let name = text::trimmed(&before);
        if let Some(n) = read_count(&after) {
            if text::same(&name, "Anonymous pages") {
                return Pages { anonymous: n, ..p };
            }
            if text::same(&name, "Pages wired down") {
                return Pages { wired: n, ..p };
            }
            if text::same(&name, "Pages occupied by compressor") {
                return Pages { compressed: n, ..p };
            }
        }
    }
    p
}

fn used_mib(p: &Pages) -> (r: u64)
    ensures
        r == used_of(*p),
{
    let pages: u128 = p.anonymous as u128 + p.wired as u128 + p.compressed as u128;
    if pages > u64::MAX as u128 {
        if p.size == 0 {
            assert((p.anonymous + p.wired + p.compressed) * p.size == 0) by (nonlinear_arith)
                requires
                    p.size == 0,
            ;
            return 0;
        }
        assert((p.anonymous + p.wired + p.compressed) * p.size > u64::MAX) by (nonlinear_arith)
            requires
                p.size >= 1,
                p.anonymous + p.wired + p.compressed > u64::MAX,
        ;
        return u64::MAX / 1024 / 1024;
    }
    assert(pages * p.size <= u64::MAX * u64::MAX) by (nonlinear_arith)
        requires
            pages <= u64::MAX,
            p.size <= u64::MAX,
    ;
    let bytes: u128 = pages * (p.size as u128);
    if bytes > u64::MAX as u128 {
        u64::MAX / 1024 / 1024
    } else {
        (bytes as u64) / 1024 / 1024
    }
}

/// The memory in use by what `vm_stat` printed, in MiB.
pub fn read_vm_stat_used(out: &str) -> (r: u64)
    ensures
        r == used_of(pages_in(text::lines(out@))),
{
    let lines = text::split_lines(out);
    let ghost all = text::lines(out@);
    let mut p = Pages { size: 16384, anonymous: 0, wired: 0, compressed: 0 };
    let mut i: usize = 0;
    assert(all.take(0).len() == 0);
    while i < lines.len()
        invariant
            i <= lines.len(),
            text::views(lines@) == all,
            p == pages_in(all.take(i as int)),
        decreases lines.len() - i,
    {
        proof {
            assert(all.take(i + 1).drop_last() =~= all.take(i as int));
            assert(all.take(i + 1).last() == lines@[i as int]@);
        }
        p = read_line(p, &lines[i]);
        i = i + 1;
    }
    assert(all.take(i as int) =~= all);
    used_mib(&p)
}

/// The machine's memory in MiB, by the number of bytes that `sysctl` printed.
pub open spec fn total_of(out: Option<Seq<char>>) -> nat {
    match out {
        Some(s) => match text::parse_uint(text::trim(s), u64::MAX as nat) {
            Some(b) => b / 1024 / 1024,
            None => 0,
        },
        None => 0,
    }
}

/// The memory by what the system printed: the level, the size of the memory, and
/// the counts of pages. Each is `None` where its command did not run.
pub fn current(level: Option<&str>, memsize: Option<&str>, vm_stat: Option<&str>) -> (r:
    SystemMemory)
    ensures
        r.level == level_of(text::given(level)),
        r.total_mib == total_of(text::given(memsize)),
        ({
            let used = match vm_stat {
                Some(s) => used_of(pages_in(text::lines(s@))),
                None => 0,
            };
            &&& r.free_mib == if used > r.total_mib {
                0
            } else {
                r.total_mib - used
            }
            &&& r.free_pct == if r.total_mib == 0 {
                0
            } else {
                (r.free_mib * 100) / r.total_mib as int
            }
        }),
        r.free_pct <= 100,
{
    let level = current_level(level);
    let total_mib: u64 = match memsize {
        Some(s) => match text::parsed_uint(&text::trimmed(s), u64::MAX) {
            Some(b) => b / 1024 / 1024,
            None => 0,
        },
        None => 0,
    };
    let used: u64 = match vm_stat {
        Some(s) => read_vm_stat_used(s),
        None => 0,
    };
    assert(total_mib <= u64::MAX / 1024 / 1024);
    let free_mib: u64 = if used > total_mib {
        0
    } else {
        total_mib - used
    };
    let free_pct: u8 = if total_mib == 0 {
        0
    } else {
        assert((free_mib * 100) / total_mib as int <= 100) by (nonlinear_arith)
            requires
                0 <= free_mib <= total_mib,
                total_mib > 0,
        ;
        ((free_mib * 100) / total_mib) as u8
    };
    SystemMemory { level, free_pct, free_mib, total_mib }
}

/// The level is read from one of three numbers, white space aside; anything else, and no
/// answer at all, tells nothing.
pub proof fn how_a_level_is_read(out: Option<Seq<char>>)
    ensures
        level_of(out) is Normal <==> out is Some && text::trim(out->0) == "1"@,
        level_of(out) is Warning <==> out is Some && text::trim(out->0) == "2"@,
        level_of(out) is Critical <==> out is Some && text::trim(out->0) == "4"@,
        out is None ==> level_of(out) is Unknown,
{
    reveal_strlit("1");
    reveal_strlit("2");
    reveal_strlit("4");
    assert("1"@[0] != "2"@[0] && "1"@[0] != "4"@[0] && "2"@[0] != "4"@[0]);
}

proof fn lemma_count(pad: Seq<char>, n: nat)
    requires
        forall|i: int| 0 <= i < pad.len() ==> text::is_white(#[trigger] pad[i]),
        n <= u64::MAX,
    ensures
        count_in(pad + text::dec(n) + seq!['.']) == Some(n),
{
    let d = text::dec(n);
    let e: Seq<char> = seq![];
    text::lemma_dec_digits(n);
    assert(text::is_digit(d[0]) && text::is_digit(d[d.len() - 1]));
    let core = d + seq!['.'];
    assert(pad + d + seq!['.'] =~= pad + core + e);
    text::trimming_takes_off_white_space(pad, core, e);
    assert(core.drop_last() =~= d);
    assert(without_dots(d) == d);
    assert(without_dots(core) == d);
    lemma_no_comma(d);
    text::numbers_are_read_back(n, u64::MAX as nat, d);
}

proof fn lemma_no_comma(d: Seq<char>)
    requires
        text::all_digits(d),
    ensures
        text::replace(d, ","@, seq![]) == d,
{
    reveal_strlit(",");
    assert(!text::contains(d, ","@)) by {
        assert forall|k: int| !text::occurs_at(d, ","@, k) by {
            if text::occurs_at(d, ","@, k) {
                assert(d.subrange(k, k + 1)[0] == d[k]);
                assert(text::is_digit(d[k]));
            }
        }
    }
    text::lemma_find_none(d, ","@);
    text::nothing_to_replace(d, ","@, seq![]);
}

/// Each of the three counts is read from the line that has its name, and every other
/// count stays as it was.
pub proof fn a_count_is_read_from_its_line(p: Pages, name: Seq<char>, pad: Seq<char>, n: nat)
    requires
        forall|i: int| 0 <= i < pad.len() ==> text::is_white(#[trigger] pad[i]),
        n <= u64::MAX,
        name == "Anonymous pages"@ || name == "Pages wired down"@ || name
            == "Pages occupied by compressor"@ || name == "Pages free"@,
    ensures
        after_line(p, name + seq![':'] + pad + text::dec(n) + seq!['.']) == (if name
            == "Anonymous pages"@ {
            Pages { anonymous: n as u64, ..p }
        } else if name == "Pages wired down"@ {
            Pages { wired: n as u64, ..p }
        } else if name == "Pages occupied by compressor"@ {
            Pages { compressed: n as u64, ..p }
        } else {
            p
        }),
{
    reveal_strlit("Anonymous pages");
    reveal_strlit("Pages wired down");
    reveal_strlit("Pages occupied by compressor");
    reveal_strlit("Pages free");
    reveal_strlit("Mach Virtual Memory Statistics: (page size of ");
    let value = pad + text::dec(n) + seq!['.'];
    let line = name + seq![':'] + pad + text::dec(n) + seq!['.'];
    let m = name.len() as int;
    assert(line =~= name + seq![':'] + value);
    let head = "Mach Virtual Memory Statistics: (page size of "@;
    if head.is_prefix_of(line) {
        assert(line.take(head.len() as int)[0] == 'M');
        assert(line[0] == name[0]);
    }
    assert forall|k: int| 0 <= k < m implies line[k] != ':' by {
        assert(line[k] == name[k]);
    }
    text::lemma_find_char(line, ':', m);
    assert(line.take(m) =~= name);
    assert(line.skip(m + 1) =~= value);
    let e: Seq<char> = seq![];
    text::trimming_takes_off_white_space(e, name, e);
    assert(e + name + e =~= name);
    lemma_count(pad, n);
}

/// The size of a page is read from the first line.
pub proof fn the_page_size_is_in_the_header(p: Pages, n: nat, rest: Seq<char>)
    requires
        n <= u64::MAX,
    ensures
        after_line(
            p,
            "Mach Virtual Memory Statistics: (page size of "@ + text::dec(n) + seq![' '] + rest,
        ) == (Pages { size: n as u64, ..p }),
{
    let head = "Mach Virtual Memory Statistics: (page size of "@;
    let d = text::dec(n);
    let line = head + d + seq![' '] + rest;
    let body = d + seq![' '] + rest;
    assert(line.take(head.len() as int) =~= head);
    assert(line.skip(head.len() as int) =~= body);
    text::lemma_dec_digits(n);
    assert forall|i: int| 0 <= i < d.len() implies !text::is_white(#[trigger] d[i]) by {
        assert(text::is_digit(d[i]));
    }
    text::words_stand_between_white_space(d, ' ', rest);
    assert(text::words(body)[0] == d);
    text::numbers_are_read_back(n, u64::MAX as nat, d);
}

/// A thousand may be set off by a comma, which does not count.
pub proof fn commas_do_not_count(a: nat, b: Seq<char>)
    requires
        b.len() > 0,
        forall|i: int| 0 <= i < b.len() ==> '0' <= #[trigger] b[i] <= '9',
    ensures
        count_in(text::dec(a) + seq![','] + b) == text::parse_uint(
            text::dec(a) + b,
            u64::MAX as nat,
        ),
{
    reveal_strlit(",");
    assert(","@ =~= seq![',']);
    let d = text::dec(a);
    let e: Seq<char> = seq![];
    let core = d + seq![','] + b;
    text::lemma_dec_digits(a);
    assert(text::is_digit(d[0]));
    assert('0' <= b[b.len() - 1] <= '9');
    assert(core.last() == b.last());
    text::trimming_takes_off_white_space(e, core, e);
    assert(e + core + e =~= core);
    assert(without_dots(core) == core);
    assert forall|k: int| 0 <= k < d.len() implies !text::occurs_at(core, ","@, k) by {
        if text::occurs_at(core, ","@, k) {
            assert(core.subrange(k, k + 1)[0] == core[k]);
            assert(text::is_digit(d[k]));
        }
    }
    assert(core.subrange(d.len() as int, d.len() as int + 1) =~= ","@);
    text::lemma_find(core, ","@, d.len() as int);
    text::all_occurrences_are_replaced(d, b, ","@, e);
    assert(text::all_digits(b));
    lemma_no_comma(b);
    assert(d + e + b =~= d + b);
}

/// What is used is the three counts together, in pages, told in whole mebibytes; the
/// size of the memory is told in whole mebibytes too.
pub proof fn memory_is_told_in_mebibytes(p: Pages, b: nat)
    requires
        (p.anonymous + p.wired + p.compressed) * p.size <= u64::MAX,
        b <= u64::MAX,
    ensures
        used_of(p) * 1_048_576 <= (p.anonymous + p.wired + p.compressed) * p.size,
        (p.anonymous + p.wired + p.compressed) * p.size < (used_of(p) + 1) * 1_048_576,
        total_of(Some(text::dec(b))) * 1_048_576 <= b,
        b < (total_of(Some(text::dec(b))) + 1) * 1_048_576,
        total_of(None) == 0,
{
    assert(0 <= (p.anonymous + p.wired + p.compressed) * p.size) by (nonlinear_arith);
    let d = text::dec(b);
    let e: Seq<char> = seq![];
    text::lemma_dec_digits(b);
    assert(text::is_digit(d[0]) && text::is_digit(d[d.len() - 1]));
    text::trimming_takes_off_white_space(e, d, e);
    assert(e + d + e =~= d);
    text::numbers_are_read_back(b, u64::MAX as nat, d);
}

/// What is printed is read line by line, each line over what was read before it; where
/// nothing is printed, pages of sixteen kibibytes are taken to be none.
pub proof fn lines_are_read_in_turn(lines: Seq<Seq<char>>, line: Seq<char>)
    ensures
        pages_in(lines.push(line)) == after_line(pages_in(lines), line),
        pages_in(seq![]) == (Pages { size: 16384, anonymous: 0, wired: 0, compressed: 0 }),
{
    assert(lines.push(line).drop_last() =~= lines);
}

} // verus!
