//! Text as sequences of characters: the string operations the rest of the
//! library is written with, each with its meaning stated over `Seq<char>`.

use vstd::prelude::*;

verus! {

/// `String::push` appends one character.
pub assume_specification[ String::push ](s: &mut String, c: char)
    ensures
        final(s)@ == old(s)@.push(c),
;

/// The characters of a list of strings.
pub open spec fn views(v: Seq<String>) -> Seq<Seq<char>> {
    v.map_values(|s: String| s@)
}

/// The Unicode `White_Space` property.
pub open spec fn is_white(c: char) -> bool {
    ||| 0x09 <= c as u32 <= 0x0d
    ||| c as u32 == 0x20
    ||| c as u32 == 0x85
    ||| c as u32 == 0xa0
    ||| c as u32 == 0x1680
    ||| 0x2000 <= c as u32 <= 0x200a
    ||| c as u32 == 0x2028
    ||| c as u32 == 0x2029
    ||| c as u32 == 0x202f
    ||| c as u32 == 0x205f
    ||| c as u32 == 0x3000
}

pub open spec fn is_digit(c: char) -> bool {
    '0' <= c <= '9'
}

pub open spec fn is_ascii_letter(c: char) -> bool {
    'a' <= c <= 'z' || 'A' <= c <= 'Z'
}

/// The text without its leading white space.
pub open spec fn trim_start(s: Seq<char>) -> Seq<char>
    decreases s.len(),
{
    if s.len() > 0 && is_white(s[0]) {
        trim_start(s.drop_first())
    } else {
        s
    }
}

/// The text without its trailing white space.
pub open spec fn trim_end(s: Seq<char>) -> Seq<char>
    decreases s.len(),
{
    if s.len() > 0 && is_white(s.last()) {
        trim_end(s.drop_last())
    } else {
        s
    }
}

/// The text without white space at either end.
pub open spec fn trim(s: Seq<char>) -> Seq<char> {
    trim_end(trim_start(s))
}

/// Where `c` first occurs, or the length where it does not.
pub open spec fn find_char(s: Seq<char>, c: char) -> int
    decreases s.len(),
{
    if s.len() == 0 || s[0] == c {
        0
    } else {
        1 + find_char(s.drop_first(), c)
    }
}

/// The pieces of `s` between the occurrences of `sep`.
pub open spec fn split(s: Seq<char>, sep: char) -> Seq<Seq<char>>
    decreases s.len(),
{
    let i = find_char(s, sep);
    if 0 <= i < s.len() {
        seq![s.take(i)] + split(s.skip(i + 1), sep)
    } else {
        seq![s]
    }
}

/// `s` without the leading `p`, where it has one.
pub open spec fn strip_prefix(s: Seq<char>, p: Seq<char>) -> Option<Seq<char>> {
    if p.is_prefix_of(s) {
        Some(s.skip(p.len() as int))
    } else {
        None
    }
}

/// `s` without the trailing `p`, where it has one.
pub open spec fn strip_suffix(s: Seq<char>, p: Seq<char>) -> Option<Seq<char>> {
    if p.is_suffix_of(s) {
        Some(s.take(s.len() - p.len()))
    } else {
        None
    }
}

/// Whether `p` stands in `s` at `i`.
pub open spec fn occurs_at(s: Seq<char>, p: Seq<char>, i: int) -> bool {
    0 <= i && i + p.len() <= s.len() && s.subrange(i, i + p.len()) == p
}

/// Whether `p` stands somewhere in `s`.
pub open spec fn contains(s: Seq<char>, p: Seq<char>) -> bool {
    exists|i: int| occurs_at(s, p, i)
}

/// Where white space first occurs, or the length where it does not.
pub open spec fn find_white(s: Seq<char>) -> int
    decreases s.len(),
{
    if s.len() == 0 || is_white(s[0]) {
        0
    } else {
        1 + find_white(s.drop_first())
    }
}

/// The runs of characters between white space.
pub open spec fn words(s: Seq<char>) -> Seq<Seq<char>>
    decreases s.len(),
{
    if s.len() == 0 {
        seq![]
    } else if is_white(s[0]) {
        words(s.drop_first())
    } else {
        proof {
            lemma_find_white_bounds(s);
        }
        let i = find_white(s);
        seq![s.take(i)] + words(s.skip(i))
    }
}

/// A line without the carriage return that ends it.
pub open spec fn strip_cr(l: Seq<char>) -> Seq<char> {
    if l.len() > 0 && l.last() == '\r' {
        l.drop_last()
    } else {
        l
    }
}

/// The lines of `s`: each is ended by a line feed, which may follow a carriage
/// return, and the last one may go without.
pub open spec fn lines(s: Seq<char>) -> Seq<Seq<char>>
    decreases s.len(),
{
    if s.len() == 0 {
        seq![]
    } else {
        let i = find_char(s, '\n');
        if 0 <= i < s.len() {
            seq![strip_cr(s.take(i))] + lines(s.skip(i + 1))
        } else {
            seq![s]
        }
    }
}

/// Where `p` first stands in `s`.
pub open spec fn find(s: Seq<char>, p: Seq<char>) -> Option<int>
    decreases s.len(),
{
    if p.is_prefix_of(s) {
        Some(0)
    } else if s.len() == 0 {
        None
    } else {
        match find(s.drop_first(), p) {
            Some(i) => Some(i + 1),
            None => None,
        }
    }
}

/// Where `c` last occurs.
pub open spec fn rfind_char(s: Seq<char>, c: char) -> Option<int>
    decreases s.len(),
{
    if s.len() == 0 {
        None
    } else if s.last() == c {
        Some(s.len() - 1)
    } else {
        rfind_char(s.drop_last(), c)
    }
}

/// The parts one after the other, with `sep` between each two.
pub open spec fn join(parts: Seq<Seq<char>>, sep: Seq<char>) -> Seq<char>
    decreases parts.len(),
{
    if parts.len() == 0 {
        seq![]
    } else if parts.len() == 1 {
        parts[0]
    } else {
        join(parts.drop_last(), sep) + sep + parts.last()
    }
}

/// `s` with `to` in place of each `from`, read from the left.
pub open spec fn replace(s: Seq<char>, from: Seq<char>, to: Seq<char>) -> Seq<char>
    decreases s.len(),
{
    if from.len() == 0 || s.len() == 0 {
        s
    } else if from.is_prefix_of(s) {
        to + replace(s.skip(from.len() as int), from, to)
    } else {
        seq![s[0]] + replace(s.drop_first(), from, to)
    }
}

pub open spec fn lower_char(c: char) -> char {
    if 'A' <= c <= 'Z' {
        ((c as u32) + 32) as char
    } else {
        c
    }
}

/// `s` with the ASCII capitals turned small.
pub open spec fn ascii_lower(s: Seq<char>) -> Seq<char> {
    s.map_values(|c: char| lower_char(c))
}

pub open spec fn upper_char(c: char) -> char {
    if 'a' <= c <= 'z' {
        ((c as u32) - 32) as char
    } else {
        c
    }
}

/// `s` with the small ASCII letters turned into capitals.
pub open spec fn ascii_upper(s: Seq<char>) -> Seq<char> {
    s.map_values(|c: char| upper_char(c))
}

pub open spec fn digit(d: nat) -> char {
    (48 + d) as char
}

/// The decimal digits of `n`.
pub open spec fn dec(n: nat) -> Seq<char>
    decreases n,
{
    if n < 10 {
        seq![digit(n)]
    } else {
        dec(n / 10).push(digit(n % 10))
    }
}

/// The decimal text of a signed number.
pub open spec fn dec_int(n: int) -> Seq<char> {
    if n < 0 {
        seq!['-'] + dec((-n) as nat)
    } else {
        dec(n as nat)
    }
}

pub open spec fn all_digits(s: Seq<char>) -> bool {
    forall|i: int| 0 <= i < s.len() ==> is_digit(#[trigger] s[i])
}

/// The number that a run of decimal digits stands for.
pub open spec fn number(s: Seq<char>) -> nat
    decreases s.len(),
{
    if s.len() == 0 {
        0
    } else {
        (number(s.drop_last()) * 10 + (s.last() as u32 - 48)) as nat
    }
}

/// The number that `s` spells, up to `max`: decimal digits, of which there is at
/// least one, behind an optional plus sign.
pub open spec fn parse_uint(s: Seq<char>, max: nat) -> Option<nat> {
    let d = if s.len() > 0 && s[0] == '+' {
        s.drop_first()
    } else {
        s
    };
    if d.len() > 0 && all_digits(d) && number(d) <= max {
        Some(number(d))
    } else {
        None
    }
}

pub proof fn lemma_find_white_bounds(s: Seq<char>)
    ensures
        0 <= find_white(s) <= s.len(),
        s.len() > 0 && !is_white(s[0]) ==> find_white(s) > 0,
    decreases s.len(),
{
    if s.len() > 0 && !is_white(s[0]) {
        lemma_find_white_bounds(s.drop_first());
    }
}

pub(crate) proof fn lemma_find_white(s: Seq<char>, i: int)
    requires
        0 <= i <= s.len(),
        forall|k: int| 0 <= k < i ==> !is_white(s[k]),
        i < s.len() ==> is_white(s[i]),
    ensures
        find_white(s) == i,
    decreases i,
{
    if i > 0 {
        lemma_find_white(s.drop_first(), i - 1);
    }
}

pub(crate) proof fn lemma_find_char(s: Seq<char>, c: char, i: int)
    requires
        0 <= i <= s.len(),
        forall|k: int| 0 <= k < i ==> s[k] != c,
        i < s.len() ==> s[i] == c,
    ensures
        find_char(s, c) == i,
    decreases i,
{
    if i > 0 {
        lemma_find_char(s.drop_first(), c, i - 1);
    }
}

pub(crate) proof fn lemma_find_char_bounds(s: Seq<char>, c: char)
    ensures
        0 <= find_char(s, c) <= s.len(),
        forall|k: int| 0 <= k < find_char(s, c) ==> s[k] != c,
        find_char(s, c) < s.len() ==> s[find_char(s, c)] == c,
    decreases s.len(),
{
    if s.len() > 0 && s[0] != c {
        lemma_find_char_bounds(s.drop_first(), c);
        assert forall|k: int| 0 <= k < find_char(s, c) implies s[k] != c by {
            if k > 0 {
                assert(s.drop_first()[k - 1] == s[k]);
            }
        }
    }
}

pub(crate) fn white(c: char) -> (b: bool)
    ensures
        b == is_white(c),
{
    let n: u32 = c as u32;
    (0x09 <= n && n <= 0x0d) || n == 0x20 || n == 0x85 || n == 0xa0 || n == 0x1680 || (0x2000 <= n
        && n <= 0x200a) || n == 0x2028 || n == 0x2029 || n == 0x202f || n == 0x205f || n == 0x3000
}

/// The characters of `s`.
pub(crate) fn chars_of(s: &str) -> (v: Vec<char>)
    ensures
        v@ == s@,
{
    let mut v: Vec<char> = Vec::new();
    for c in it: s.chars()
        invariant
            v@ == it.seq().take(it.index()),
            it.seq() == s@,
    {
        v.push(c);
        proof {
            assert(it.seq().take(it.index() + 1) =~= it.seq().take(it.index()).push(c));
        }
    }
    assert(s@.take(s@.len() as int) =~= s@);
    v
}

/// The characters from `i` up to `j` as a string.
pub(crate) fn piece(v: &[char], i: usize, j: usize) -> (s: String)
    requires
        i <= j <= v.len(),
    ensures
        s@ == v@.subrange(i as int, j as int),
{
    let mut s: String = String::new();
    let mut k: usize = i;
    while k < j
        invariant
            i <= k <= j <= v.len(),
            s@ == v@.subrange(i as int, k as int),
        decreases j - k,
    {
        s.push(v[k]);
        k = k + 1;
        assert(v@.subrange(i as int, k as int) =~= v@.subrange(i as int, k - 1).push(v[k - 1]));
    }
    s
}

/// Whether two texts are the same.
pub(crate) fn same(a: &str, b: &str) -> (r: bool)
    ensures
        r == (a@ == b@),
{
    a.to_owned() == b.to_owned()
}

/// The two texts one after the other.
pub(crate) fn cat(a: &str, b: &str) -> (r: String)
    ensures
        r@ == a@ + b@,
{
    let mut r = a.to_owned();
    r.append(b);
    r
}

/// The three texts one after the other.
pub(crate) fn cat3(a: &str, b: &str, c: &str) -> (r: String)
    ensures
        r@ == a@ + b@ + c@,
{
    let mut r = cat(a, b);
    r.append(c);
    r
}

/// The text behind an optional reference.
pub open spec fn given(o: Option<&str>) -> Option<Seq<char>> {
    match o {
        Some(s) => Some(s@),
        None => None,
    }
}

/// The text in an optional string.
pub open spec fn maybe(o: Option<String>) -> Option<Seq<char>> {
    match o {
        Some(s) => Some(s@),
        None => None,
    }
}

/// A copy of the text, where there is one.
pub(crate) fn copied(o: &Option<String>) -> (r: Option<String>)
    ensures
        r == *o,
{
    match o {
        Some(s) => Some(s.clone()),
        None => None,
    }
}

/// A copy of the list.
pub(crate) fn copies(v: &[String]) -> (r: Vec<String>)
    ensures
        r@ == v@,
{
    let mut r: Vec<String> = Vec::new();
    let mut i: usize = 0;
    while i < v.len()
        invariant
            i <= v.len(),
            r@ == v@.take(i as int),
        decreases v.len() - i,
    {
        r.push(v[i].clone());
        i = i + 1;
        assert(v@.take(i as int) =~= v@.take(i - 1).push(v[i - 1]));
    }
    assert(v@.take(i as int) =~= v@);
    r
}

/// The texts as a list of strings.
pub(crate) fn list(parts: &[&str]) -> (r: Vec<String>)
    ensures
        r@.len() == parts@.len(),
        forall|i: int| 0 <= i < parts@.len() ==> (#[trigger] r@[i])@ == parts@[i]@,
{
    let mut r: Vec<String> = Vec::new();
    let mut i: usize = 0;
    while i < parts.len()
        invariant
            i <= parts.len(),
            r@.len() == i,
            forall|k: int| 0 <= k < i ==> (#[trigger] r@[k])@ == parts@[k]@,
        decreases parts.len() - i,
    {
        r.push(parts[i].to_owned());
        i = i + 1;
    }
    r
}

/// Whether the list holds the text.
pub(crate) fn among(v: &[String], s: &str) -> (r: bool)
    ensures
        r == views(v@).contains(s@),
{
    let mut i: usize = 0;
    while i < v.len()
        invariant
            i <= v.len(),
            forall|k: int| 0 <= k < i ==> views(v@)[k] != s@,
        decreases v.len() - i,
    {
        if same(v[i].as_str(), s) {
            assert(views(v@)[i as int] == s@);
            return true;
        }
        i = i + 1;
    }
    false
}

/// Where `c` first occurs in `v` at or after `from`.
pub(crate) fn seek(v: &[char], from: usize, c: char) -> (i: usize)
    requires
        from <= v.len(),
    ensures
        from <= i <= v.len(),
        i - from == find_char(v@.skip(from as int), c),
        i < v.len() ==> v[i as int] == c,
{
    let mut i: usize = from;
    while i < v.len() && v[i] != c
        invariant
            from <= i <= v.len(),
            forall|k: int| from <= k < i ==> v[k] != c,
        decreases v.len() - i,
    {
        i = i + 1;
    }
    proof {
        lemma_find_char(v@.skip(from as int), c, i - from);
    }
    i
}

/// The bounds of `v` without the white space at either end.
pub(crate) fn trim_bounds(v: &[char]) -> (r: (usize, usize))
    ensures
        r.0 <= r.1 <= v.len(),
        v@.subrange(r.0 as int, r.1 as int) == trim(v@),
{
    let n: usize = v.len();
    let mut i: usize = 0;
    assert(v@.skip(0) =~= v@);
    while i < n && white(v[i])
        invariant
            i <= n == v.len(),
            trim_start(v@.skip(i as int)) == trim_start(v@),
        decreases n - i,
    {
        proof {
            assert(v@.skip(i as int).drop_first() =~= v@.skip(i + 1));
        }
        i = i + 1;
    }
    let mut j: usize = n;
    assert(trim_start(v@) == v@.skip(i as int));
    assert(v@.subrange(i as int, n as int) =~= v@.skip(i as int));
    while i < j && white(v[j - 1])
        invariant
            i <= j <= n == v.len(),
            trim_end(v@.subrange(i as int, j as int)) == trim(v@),
        decreases j,
    {
        proof {
            assert(v@.subrange(i as int, j as int).drop_last() =~= v@.subrange(
                i as int,
                j - 1,
            ));
        }
        j = j - 1;
    }
    (i, j)
}

/// `s` without white space at either end.
pub(crate) fn trimmed(s: &str) -> (r: String)
    ensures
        r@ == trim(s@),
{
    let v = chars_of(s);
    let b = trim_bounds(&v);
    piece(&v, b.0, b.1)
}

/// `s` without its leading white space.
pub(crate) fn trimmed_start(s: &str) -> (r: String)
    ensures
        r@ == trim_start(s@),
{
    let v = chars_of(s);
    let n: usize = v.len();
    let mut i: usize = 0;
    assert(v@.skip(0) =~= v@);
    while i < n && white(v[i])
        invariant
            i <= n == v.len(),
            trim_start(v@.skip(i as int)) == trim_start(v@),
        decreases n - i,
    {
        proof {
            assert(v@.skip(i as int).drop_first() =~= v@.skip(i + 1));
        }
        i = i + 1;
    }
    assert(v@.subrange(i as int, n as int) =~= v@.skip(i as int));
    piece(&v, i, n)
}

/// The pieces of `s` between the occurrences of `sep`.
pub(crate) fn split_on(s: &str, sep: char) -> (out: Vec<String>)
    ensures
        views(out@) == split(s@, sep),
{
    let v = chars_of(s);
    let mut out: Vec<String> = Vec::new();
    let mut from: usize = 0;
    let mut at: usize = seek(&v, 0, sep);
    assert(v@.skip(0) =~= v@);
    assert(views(out@) + split(v@, sep) =~= split(v@, sep));
    while at < v.len()
        invariant
            from <= at <= v.len(),
            at - from == find_char(v@.skip(from as int), sep),
            views(out@) + split(v@.skip(from as int), sep) == split(v@, sep),
        decreases v.len() - from,
    {
        let p = piece(&v, from, at);
        proof {
            let rest = v@.skip(from as int);
            let i = at - from;
            assert(rest.take(i) =~= v@.subrange(from as int, at as int));
            assert(rest.skip(i + 1) =~= v@.skip(at + 1));
            assert(views(out@.push(p)) =~= views(out@).push(p@));
            assert(views(out@).push(p@) + split(v@.skip(at + 1), sep) =~= views(out@) + (seq![p@]
                + split(v@.skip(at + 1), sep)));
        }
        out.push(p);
        from = at + 1;
        at = seek(&v, from, sep);
    }
    let p = piece(&v, from, at);
    proof {
        assert(v@.skip(from as int) =~= v@.subrange(from as int, at as int));
        assert(views(out@.push(p)) =~= views(out@) + seq![p@]);
    }
    out.push(p);
    out
}

/// Whether `p` stands in `v` at `i`.
pub(crate) fn stands_at(v: &[char], p: &[char], i: usize) -> (r: bool)
    requires
        i <= v.len(),
    ensures
        r == occurs_at(v@, p@, i as int),
{
    if p.len() > v.len() - i {
        return false;
    }
    let mut k: usize = 0;
    while k < p.len()
        invariant
            k <= p.len() <= v.len() - i,
            forall|j: int| 0 <= j < k ==> v[i + j] == p[j],
        decreases p.len() - k,
    {
        if v[i + k] != p[k] {
            proof {
                assert(v@.subrange(i as int, i + p.len())[k as int] == v[i + k]);
            }
            return false;
        }
        k = k + 1;
    }
    assert(v@.subrange(i as int, i + p.len()) =~= p@);
    true
}

pub(crate) proof fn lemma_prefix_occurs(s: Seq<char>, p: Seq<char>)
    ensures
        p.is_prefix_of(s) == occurs_at(s, p, 0),
{
}

pub(crate) proof fn lemma_suffix_occurs(s: Seq<char>, p: Seq<char>)
    ensures
        p.is_suffix_of(s) == (p.len() <= s.len() && occurs_at(s, p, s.len() - p.len())),
{
}

/// Whether `s` starts with `p`.
pub(crate) fn has_prefix(s: &str, p: &str) -> (r: bool)
    ensures
        r == p@.is_prefix_of(s@),
{
    proof {
        lemma_prefix_occurs(s@, p@);
    }
    stands_at(&chars_of(s), &chars_of(p), 0)
}

/// Whether `s` ends with `p`.
pub(crate) fn has_suffix(s: &str, p: &str) -> (r: bool)
    ensures
        r == p@.is_suffix_of(s@),
{
    let v = chars_of(s);
    let w = chars_of(p);
    proof {
        lemma_suffix_occurs(s@, p@);
    }
    if w.len() > v.len() {
        return false;
    }
    stands_at(&v, &w, v.len() - w.len())
}

/// `s` without the leading `p`, where it has one.
pub(crate) fn without_prefix(s: &str, p: &str) -> (r: Option<String>)
    ensures
        match r {
            Some(rest) => strip_prefix(s@, p@) == Some(rest@),
            None => strip_prefix(s@, p@) is None,
        },
{
    if has_prefix(s, p) {
        let v = chars_of(s);
        let w = chars_of(p);
        let rest = piece(&v, w.len(), v.len());
        assert(rest@ =~= s@.skip(p@.len() as int));
        Some(rest)
    } else {
        None
    }
}

/// `s` without the trailing `p`, where it has one.
pub(crate) fn without_suffix(s: &str, p: &str) -> (r: Option<String>)
    ensures
        match r {
            Some(rest) => strip_suffix(s@, p@) == Some(rest@),
            None => strip_suffix(s@, p@) is None,
        },
{
    if has_suffix(s, p) {
        let v = chars_of(s);
        let w = chars_of(p);
        let rest = piece(&v, 0, v.len() - w.len());
        assert(rest@ =~= s@.take(s@.len() - p@.len()));
        Some(rest)
    } else {
        None
    }
}

/// Whether `p` stands somewhere in `s`.
pub(crate) fn holds(s: &str, p: &str) -> (r: bool)
    ensures
        r == contains(s@, p@),
{
    let v = chars_of(s);
    let w = chars_of(p);
    let mut i: usize = 0;
    while i <= v.len()
        invariant
            v@ == s@,
            w@ == p@,
            i <= v.len() + 1,
            forall|k: int| 0 <= k < i ==> !occurs_at(s@, p@, k),
        decreases v.len() + 1 - i,
    {
        if stands_at(&v, &w, i) {
            assert(occurs_at(s@, p@, i as int));
            return true;
        }
        if i == v.len() {
            return false;
        }
        i = i + 1;
    }
    false
}

/// The runs of characters between white space.
pub(crate) fn split_words(s: &str) -> (out: Vec<String>)
    ensures
        views(out@) == words(s@),
{
    let v = chars_of(s);
    let mut out: Vec<String> = Vec::new();
    let mut i: usize = 0;
    assert(v@.skip(0) =~= v@);
    assert(views(out@) + words(v@) =~= words(v@));
    while i < v.len()
        invariant
            i <= v.len(),
            views(out@) + words(v@.skip(i as int)) == words(v@),
        decreases v.len() - i,
    {
        if white(v[i]) {
            proof {
                assert(v@.skip(i as int).drop_first() =~= v@.skip(i + 1));
            }
            i = i + 1;
        } else {
            let mut j: usize = i;
            while j < v.len() && !white(v[j])
                invariant
                    i <= j <= v.len(),
                    forall|k: int| i <= k < j ==> !is_white(v[k]),
                decreases v.len() - j,
            {
                j = j + 1;
            }
            let p = piece(&v, i, j);
            proof {
                let rest = v@.skip(i as int);
                lemma_find_white(rest, j - i);
                assert(rest.take(j - i) =~= v@.subrange(i as int, j as int));
                assert(rest.skip(j - i) =~= v@.skip(j as int));
                assert(views(out@.push(p)) =~= views(out@).push(p@));
                assert(views(out@).push(p@) + words(v@.skip(j as int)) =~= views(out@) + (seq![p@]
                    + words(v@.skip(j as int))));
                lemma_find_white_bounds(rest);
            }
            out.push(p);
            i = j;
        }
    }
    assert(v@.skip(i as int) =~= seq![]);
    assert(views(out@) + words(v@.skip(i as int)) =~= views(out@));
    out
}

/// The lines of `s`.
pub(crate) fn split_lines(s: &str) -> (out: Vec<String>)
    ensures
        views(out@) == lines(s@),
{
    let v = chars_of(s);
    let mut out: Vec<String> = Vec::new();
    let mut from: usize = 0;
    assert(v@.skip(0) =~= v@);
    assert(views(out@) + lines(v@) =~= lines(v@));
    while from < v.len()
        invariant
            from <= v.len(),
            views(out@) + lines(v@.skip(from as int)) == lines(v@),
        decreases v.len() - from,
    {
        let at = seek(&v, from, '\n');
        let end: usize = if at < v.len() && at > from && v[at - 1] == '\r' {
            at - 1
        } else {
            at
        };
        let p = piece(&v, from, end);
        let ghost rest = v@.skip(from as int);
        let ghost i = at - from;
        proof {
            assert(rest.take(i) =~= v@.subrange(from as int, at as int));
            assert(views(out@.push(p)) =~= views(out@).push(p@));
            if at < v.len() {
                assert(rest.skip(i + 1) =~= v@.skip(at + 1));
                assert(strip_cr(rest.take(i)) =~= p@);
                assert(views(out@).push(p@) + lines(v@.skip(at + 1)) =~= views(out@) + (seq![p@]
                    + lines(v@.skip(at + 1))));
            } else {
                assert(rest =~= p@);
                assert(lines(rest) == seq![p@]);
                assert(lines(v@.skip(at as int)) =~= seq![]);
                assert(views(out@).push(p@) + lines(v@.skip(at as int)) =~= views(out@) + seq![p@]);
            }
        }
        out.push(p);
        from = if at < v.len() {
            at + 1
        } else {
            at
        };
    }
    assert(v@.skip(from as int) =~= seq![]);
    assert(views(out@) + lines(v@.skip(from as int)) =~= views(out@));
    out
}

pub(crate) proof fn lemma_find(s: Seq<char>, p: Seq<char>, i: int)
    requires
        forall|k: int| 0 <= k < i ==> !occurs_at(s, p, k),
        occurs_at(s, p, i),
    ensures
        find(s, p) == Some(i),
    decreases i,
{
    lemma_prefix_occurs(s, p);
    if i > 0 {
        assert(!occurs_at(s, p, 0));
        let t = s.drop_first();
        assert forall|k: int| 0 <= k < i - 1 implies !occurs_at(t, p, k) by {
            assert(!occurs_at(s, p, k + 1));
            if k + p.len() <= t.len() {
                assert(t.subrange(k, k + p.len()) =~= s.subrange(k + 1, k + 1 + p.len()));
            }
        }
        assert(t.subrange(i - 1, i - 1 + p.len()) =~= s.subrange(i, i + p.len()));
        lemma_find(t, p, i - 1);
    }
}

pub(crate) proof fn lemma_find_holds(s: Seq<char>, p: Seq<char>)
    ensures
        find(s, p) matches Some(i) ==> occurs_at(s, p, i),
    decreases s.len(),
{
    lemma_prefix_occurs(s, p);
    if !p.is_prefix_of(s) && s.len() > 0 {
        let t = s.drop_first();
        lemma_find_holds(t, p);
        if let Some(i) = find(t, p) {
            assert(t.subrange(i, i + p.len()) =~= s.subrange(i + 1, i + 1 + p.len()));
        }
    }
}

pub(crate) proof fn lemma_find_some(s: Seq<char>, p: Seq<char>, i: int)
    requires
        occurs_at(s, p, i),
    ensures
        find(s, p) matches Some(j) && 0 <= j <= i,
    decreases s.len(),
{
    lemma_prefix_occurs(s, p);
    if !p.is_prefix_of(s) {
        assert(i > 0);
        let t = s.drop_first();
        assert(t.subrange(i - 1, i - 1 + p.len()) =~= s.subrange(i, i + p.len()));
        lemma_find_some(t, p, i - 1);
    }
}

pub(crate) proof fn lemma_find_none(s: Seq<char>, p: Seq<char>)
    requires
        !contains(s, p),
    ensures
        find(s, p) is None,
    decreases s.len(),
{
    lemma_prefix_occurs(s, p);
    assert(!occurs_at(s, p, 0));
    if s.len() > 0 {
        let t = s.drop_first();
        assert forall|k: int| !occurs_at(t, p, k) by {
            assert(!occurs_at(s, p, k + 1));
            if 0 <= k && k + p.len() <= t.len() {
                assert(t.subrange(k, k + p.len()) =~= s.subrange(k + 1, k + 1 + p.len()));
            }
        }
        lemma_find_none(t, p);
    }
}

pub(crate) proof fn lemma_lines_concat(a: Seq<char>, b: Seq<char>)
    requires
        a.len() == 0 || a.last() == '\n',
    ensures
        lines(a + b) == lines(a) + lines(b),
    decreases a.len(),
{
    if a.len() == 0 {
        assert(a + b =~= b);
        assert(lines(a) + lines(b) =~= lines(b));
    } else {
        lemma_find_char_bounds(a, '\n');
        let i = find_char(a, '\n');
        if i == a.len() {
            assert(a[a.len() - 1] != '\n');
        }
        lemma_find_char(a + b, '\n', i);
        assert((a + b).take(i) =~= a.take(i));
        assert((a + b).skip(i + 1) =~= a.skip(i + 1) + b);
        lemma_lines_concat(a.skip(i + 1), b);
        assert(seq![strip_cr(a.take(i))] + (lines(a.skip(i + 1)) + lines(b)) =~= (seq![
            strip_cr(a.take(i)),
        ] + lines(a.skip(i + 1))) + lines(b));
    }
}

/// A line that holds no line break and stands on its own.
pub(crate) proof fn lemma_one_line(l: Seq<char>)
    requires
        !l.contains('\n'),
    ensures
        lines(l.push('\n')) == seq![strip_cr(l)],
{
    let s = l.push('\n');
    assert forall|k: int| 0 <= k < l.len() implies s[k] != '\n' by {
        assert(l.contains(l[k]));
    }
    lemma_find_char(s, '\n', l.len() as int);
    assert(s.take(l.len() as int) =~= l);
    assert(s.skip(l.len() as int + 1) =~= seq![]);
    assert(lines(s.skip(l.len() as int + 1)) =~= seq![]);
    assert(lines(s) =~= seq![strip_cr(l)]);
}

pub(crate) proof fn lemma_trim_push(s: Seq<char>, c: char)
    requires
        is_white(c),
    ensures
        trim(s.push(c)) == trim(s),
    decreases s.len(),
{
    let t = s.push(c);
    if s.len() == 0 {
        assert(t.drop_first() =~= s);
    } else if is_white(s[0]) {
        assert(t.drop_first() =~= s.drop_first().push(c));
        lemma_trim_push(s.drop_first(), c);
    } else {
        assert(t.drop_last() =~= s);
    }
}

/// The lines of `s` without the white space around each.
pub open spec fn trimmed_lines(s: Seq<char>) -> Seq<Seq<char>> {
    lines(s).map_values(|l: Seq<char>| trim(l))
}

/// Ending the last line changes none of them, but for white space.
pub(crate) proof fn lemma_end_line(s: Seq<char>)
    requires
        s.len() > 0,
        s.last() != '\n',
    ensures
        trimmed_lines(s.push('\n')) == trimmed_lines(s),
    decreases s.len(),
{
    let t = s.push('\n');
    lemma_find_char_bounds(s, '\n');
    let i = find_char(s, '\n');
    if i == s.len() {
        assert(!s.contains('\n')) by {
            assert forall|k: int| 0 <= k < s.len() implies s[k] != '\n' by {}
        }
        lemma_one_line(s);
        if s.last() == '\r' {
            lemma_trim_push(s.drop_last(), '\r');
            assert(s.drop_last().push('\r') =~= s);
        }
        assert(trimmed_lines(t) =~= trimmed_lines(s));
    } else {
        lemma_find_char(t, '\n', i);
        assert(t.take(i) =~= s.take(i));
        assert(t.skip(i + 1) =~= s.skip(i + 1).push('\n'));
        assert(i + 1 < s.len()) by {
            if i + 1 == s.len() {
                assert(s[i] == s.last());
            }
        }
        lemma_end_line(s.skip(i + 1));
        let head = seq![strip_cr(s.take(i))];
        assert(trimmed_lines(s) =~= head.map_values(|l: Seq<char>| trim(l)) + trimmed_lines(
            s.skip(i + 1),
        ));
        assert(trimmed_lines(t) =~= head.map_values(|l: Seq<char>| trim(l)) + trimmed_lines(
            t.skip(i + 1),
        ));
    }
}

/// Where `p` first stands in `v`.
pub(crate) fn seek_text(v: &[char], p: &[char]) -> (r: Option<usize>)
    ensures
        match r {
            Some(i) => find(v@, p@) == Some(i as int) && i + p.len() <= v.len() && occurs_at(
                v@,
                p@,
                i as int,
            ),
            None => find(v@, p@) is None,
        },
{
    let mut i: usize = 0;
    loop
        invariant
            i <= v.len(),
            forall|k: int| 0 <= k < i ==> !occurs_at(v@, p@, k),
        decreases v.len() - i,
    {
        if stands_at(v, p, i) {
            proof {
                lemma_find(v@, p@, i as int);
            }
            return Some(i);
        }
        if i == v.len() {
            proof {
                assert forall|k: int| !occurs_at(v@, p@, k) by {
                    if k == v.len() {
                        assert(!occurs_at(v@, p@, i as int));
                    }
                }
                lemma_find_none(v@, p@);
            }
            return None;
        }
        i = i + 1;
    }
}

/// Where `c` last occurs in `v`.
pub(crate) fn seek_back(v: &[char], c: char) -> (r: Option<usize>)
    ensures
        match r {
            Some(i) => i < v.len() && v[i as int] == c && rfind_char(v@, c) == Some(i as int),
            None => rfind_char(v@, c) is None,
        },
{
    let mut j: usize = v.len();
    assert(v@.take(j as int) =~= v@);
    while j > 0
        invariant
            j <= v.len(),
            rfind_char(v@.take(j as int), c) == rfind_char(v@, c),
        decreases j,
    {
        if v[j - 1] == c {
            return Some(j - 1);
        }
        proof {
            assert(v@.take(j as int).drop_last() =~= v@.take(j - 1));
        }
        j = j - 1;
    }
    None
}

/// The parts one after the other, with `sep` between each two.
pub(crate) fn joined(parts: &[String], sep: &str) -> (r: String)
    ensures
        r@ == join(views(parts@), sep@),
{
    let mut r: String = String::new();
    let mut i: usize = 0;
    while i < parts.len()
        invariant
            i <= parts.len(),
            r@ == join(views(parts@).take(i as int), sep@),
        decreases parts.len() - i,
    {
        proof {
            let t = views(parts@).take(i + 1);
            assert(t.drop_last() =~= views(parts@).take(i as int));
            assert(t.last() == parts[i as int]@);
        }
        if i > 0 {
            r.append(sep);
        }
        r.append(parts[i].as_str());
        i = i + 1;
        assert(r@ =~= join(views(parts@).take(i as int), sep@));
    }
    assert(views(parts@).take(i as int) =~= views(parts@));
    r
}

/// `s` with `to` in place of each `from`.
pub(crate) fn replaced(s: &str, from: &str, to: &str) -> (r: String)
    requires
        from@.len() > 0,
    ensures
        r@ == replace(s@, from@, to@),
{
    let v = chars_of(s);
    let w = chars_of(from);
    let mut r: String = String::new();
    let mut i: usize = 0;
    assert(v@.skip(0) =~= v@);
    while i < v.len()
        invariant
            i <= v.len(),
            w@ == from@,
            w.len() > 0,
            r@ + replace(v@.skip(i as int), from@, to@) == replace(v@, from@, to@),
        decreases v.len() - i,
    {
        let ghost rest = v@.skip(i as int);
        proof {
            lemma_prefix_occurs(rest, from@);
            if i + from@.len() <= v.len() {
                assert(rest.subrange(0, from@.len() as int) =~= v@.subrange(
                    i as int,
                    i + from@.len(),
                ));
            }
        }
        if stands_at(&v, &w, i) {
            let ghost before = r@;
            r.append(to);
            i = i + w.len();
            proof {
                assert(rest.skip(from@.len() as int) =~= v@.skip(i as int));
                assert(r@ + replace(v@.skip(i as int), from@, to@) =~= before + (to@ + replace(
                    v@.skip(i as int),
                    from@,
                    to@,
                )));
            }
        } else {
            let ghost before = r@;
            r.push(v[i]);
            i = i + 1;
            proof {
                assert(rest.drop_first() =~= v@.skip(i as int));
                assert(r@ + replace(v@.skip(i as int), from@, to@) =~= before + (seq![rest[0]]
                    + replace(v@.skip(i as int), from@, to@)));
            }
        }
    }
    assert(v@.skip(i as int) =~= seq![]);
    assert(r@ + replace(v@.skip(i as int), from@, to@) =~= r@);
    r
}

pub(crate) fn lowered_char(c: char) -> (r: char)
    ensures
        r == lower_char(c),
{
    if 'A' <= c && c <= 'Z' {
        ((c as u8) + 32) as char
    } else {
        c
    }
}

/// `s` with the ASCII capitals turned small.
pub(crate) fn ascii_lowered(s: &str) -> (r: String)
    ensures
        r@ == ascii_lower(s@),
{
    let v = chars_of(s);
    let mut r: String = String::new();
    let mut i: usize = 0;
    while i < v.len()
        invariant
            i <= v.len(),
            r@ == ascii_lower(v@.take(i as int)),
        decreases v.len() - i,
    {
        r.push(lowered_char(v[i]));
        i = i + 1;
        assert(ascii_lower(v@.take(i as int)) =~= ascii_lower(v@.take(i - 1)).push(
            lower_char(v[i - 1]),
        ));
    }
    assert(v@.take(i as int) =~= v@);
    r
}

/// `s` with the small ASCII letters turned into capitals.
pub(crate) fn ascii_raised(s: &str) -> (r: String)
    ensures
        r@ == ascii_upper(s@),
{
    let v = chars_of(s);
    let mut r: String = String::new();
    let mut i: usize = 0;
    while i < v.len()
        invariant
            i <= v.len(),
            r@ == ascii_upper(v@.take(i as int)),
        decreases v.len() - i,
    {
        let c = v[i];
        let up = if 'a' <= c && c <= 'z' {
            ((c as u8) - 32) as char
        } else {
            c
        };
        r.push(up);
        i = i + 1;
        assert(ascii_upper(v@.take(i as int)) =~= ascii_upper(v@.take(i - 1)).push(
            upper_char(v[i - 1]),
        ));
    }
    assert(v@.take(i as int) =~= v@);
    r
}

/// The decimal digits of `n`.
pub(crate) fn decimal(n: u64) -> (r: String)
    ensures
        r@ == dec(n as nat),
    decreases n,
{
    let d: u8 = 48 + (n % 10) as u8;
    if n < 10 {
        let mut r: String = String::new();
        r.push(d as char);
        assert(r@ =~= dec(n as nat));
        r
    } else {
        let mut r: String = decimal(n / 10);
        r.push(d as char);
        r
    }
}

pub(crate) proof fn lemma_number_bound(s: Seq<char>, k: int)
    requires
        all_digits(s),
        0 <= k <= s.len(),
    ensures
        number(s.take(k)) <= number(s),
    decreases s.len() - k,
{
    if k < s.len() {
        let t = s.take(k + 1);
        assert(t.drop_last() =~= s.take(k));
        assert(is_digit(s[k]));
        assert(t.last() == s[k]);
        lemma_number_bound(s, k + 1);
    } else {
        assert(s.take(k) =~= s);
    }
}

/// The number that `s` spells, up to `max`.
pub(crate) fn parsed_uint(s: &str, max: u64) -> (r: Option<u64>)
    ensures
        match r {
            Some(n) => parse_uint(s@, max as nat) == Some(n as nat),
            None => parse_uint(s@, max as nat) is None,
        },
{
    let v = chars_of(s);
    let start: usize = if v.len() > 0 && v[0] == '+' {
        1
    } else {
        0
    };
    let ghost d = v@.skip(start as int);
    assert(start == 1 ==> d =~= s@.drop_first());
    assert(start == 0 ==> d =~= s@);
    if start == v.len() {
        return None;
    }
    let mut n: u64 = 0;
    let mut i: usize = start;
    while i < v.len()
        invariant
            start <= i <= v.len(),
            start < v.len(),
            v@ == s@,
            d == v@.skip(start as int),
            d == (if s@.len() > 0 && s@[0] == '+' {
                s@.drop_first()
            } else {
                s@
            }),
            n == number(d.take(i - start)),
            n <= max,
            forall|k: int| 0 <= k < i - start ==> is_digit(#[trigger] d[k]),
        decreases v.len() - i,
    {
        let c: char = v[i];
        assert(d[i - start] == c);
        if c < '0' || '9' < c {
            return None;
        }
        let x: u64 = (c as u8 - 48) as u64;
        proof {
            let t = d.take(i - start + 1);
            assert(t.drop_last() =~= d.take(i - start));
            assert(t.last() == c);
            if all_digits(d) {
                lemma_number_bound(d, i - start + 1);
            }
        }
        if x > max || n > max / 10 || n * 10 > max - x {
            return None;
        }
        n = n * 10 + x;
        i = i + 1;
    }
    assert(d.take(i - start) =~= d);
    Some(n)
}

/// The digits of a number stand for it, so two numbers never share them.
pub(crate) proof fn lemma_number_of_dec(n: nat)
    ensures
        number(dec(n)) == n,
    decreases n,
{
    reveal_with_fuel(number, 2);
    if n < 10 {
        assert(dec(n).drop_last() =~= seq![]);
    } else {
        lemma_number_of_dec(n / 10);
        assert(dec(n).drop_last() =~= dec(n / 10));
    }
}

pub(crate) proof fn lemma_rfind_char(s: Seq<char>, c: char)
    ensures
        match rfind_char(s, c) {
            Some(i) => 0 <= i < s.len() && s[i] == c && forall|k: int| i < k < s.len() ==> s[k] != c,
            None => !s.contains(c),
        },
    decreases s.len(),
{
    if s.len() > 0 && s.last() != c {
        let t = s.drop_last();
        lemma_rfind_char(t, c);
        if rfind_char(s, c) is None && s.contains(c) {
            let k = choose|k: int| 0 <= k < s.len() && s[k] == c;
            assert(t[k] == c);
        }
        if let Some(i) = rfind_char(s, c) {
            assert forall|k: int| i < k < s.len() implies s[k] != c by {
                if k < t.len() {
                    assert(t[k] == s[k]);
                }
            }
        }
    }
}

/// Ending the last line takes the carriage return off it, and leaves the others alone.
pub(crate) proof fn lemma_last_line(s: Seq<char>)
    requires
        s.len() > 0,
        s.last() != '\n',
    ensures
        lines(s).len() > 0,
        lines(s.push('\n')) == lines(s).drop_last().push(strip_cr(lines(s).last())),
    decreases s.len(),
{
    let t = s.push('\n');
    lemma_find_char_bounds(s, '\n');
    let i = find_char(s, '\n');
    if i == s.len() {
        assert(!s.contains('\n')) by {
            assert forall|k: int| 0 <= k < s.len() implies s[k] != '\n' by {}
        }
        lemma_one_line(s);
        assert(lines(s) =~= seq![s]);
        assert(lines(s).drop_last().push(strip_cr(s)) =~= seq![strip_cr(s)]);
    } else {
        lemma_find_char(t, '\n', i);
        assert(t.take(i) =~= s.take(i));
        assert(t.skip(i + 1) =~= s.skip(i + 1).push('\n'));
        assert(i + 1 < s.len()) by {
            if i + 1 == s.len() {
                assert(s[i] == s.last());
            }
        }
        let rest = lines(s.skip(i + 1));
        lemma_last_line(s.skip(i + 1));
        let head = seq![strip_cr(s.take(i))];
        assert(lines(s) =~= head + rest);
        assert(lines(s).last() == rest.last());
        assert(lines(t) =~= head + rest.drop_last().push(strip_cr(rest.last())));
        assert(lines(s).drop_last() =~= head + rest.drop_last());
        assert(lines(s).drop_last().push(strip_cr(rest.last())) =~= lines(t));
    }
}

/// White space at the end of a text does not keep its beginning from being trimmed.
pub(crate) proof fn lemma_trim_start_push(s: Seq<char>, c: char)
    requires
        is_white(c),
    ensures
        trim_start(s.push(c)) == (if trim_start(s).len() > 0 {
            trim_start(s).push(c)
        } else {
            seq![]
        }),
    decreases s.len(),
{
    let t = s.push(c);
    if s.len() == 0 {
        assert(t.drop_first() =~= s);
        assert(trim_start(s) =~= seq![]);
    } else if is_white(s[0]) {
        assert(t.drop_first() =~= s.drop_first().push(c));
        lemma_trim_start_push(s.drop_first(), c);
    }
}

proof fn lemma_trim_start(s: Seq<char>)
    ensures
        trim_start(s).len() > 0 ==> !is_white(trim_start(s)[0]),
    decreases s.len(),
{
    if s.len() > 0 && is_white(s[0]) {
        lemma_trim_start(s.drop_first());
    }
}

proof fn lemma_trim_end(s: Seq<char>)
    ensures
        trim_end(s).is_prefix_of(s),
        trim_end(s).len() > 0 ==> !is_white(trim_end(s).last()),
    decreases s.len(),
{
    if s.len() > 0 && is_white(s.last()) {
        lemma_trim_end(s.drop_last());
        assert(s.take(trim_end(s).len() as int) =~= s.drop_last().take(trim_end(s).len() as int));
    } else {
        assert(s.take(s.len() as int) =~= s);
    }
}

/// Trimming a text again changes nothing.
pub(crate) proof fn lemma_trim_again(s: Seq<char>)
    ensures
        trim(trim(s)) == trim(s),
{
    let t = trim_start(s);
    lemma_trim_start(s);
    lemma_trim_end(t);
    let r = trim(s);
    if r.len() > 0 {
        assert(r[0] == t[0]) by {
            assert(r == t.take(r.len() as int));
        }
    }
}

/// The digits of a number are digits.
pub(crate) proof fn lemma_dec_digits(n: nat)
    ensures
        all_digits(dec(n)),
        dec(n).len() > 0,
    decreases n,
{
    if n >= 10 {
        lemma_dec_digits(n / 10);
    }
}

/// Trimming takes off all of the white space around a text and nothing else: what is
/// left has none at its ends, and stands in the text between white space.
pub proof fn trimming_takes_off_white_space(a: Seq<char>, core: Seq<char>, b: Seq<char>)
    requires
        forall|i: int| 0 <= i < a.len() ==> is_white(#[trigger] a[i]),
        forall|i: int| 0 <= i < b.len() ==> is_white(#[trigger] b[i]),
        core.len() > 0 ==> !is_white(core[0]) && !is_white(core.last()),
    ensures
        trim(a + core + b) == core,
        core.len() > 0 ==> trim_start(a + core + b) == core + b,
        core.len() > 0 ==> trim_end(a + core + b) == a + core,
    decreases a.len() + b.len(),
{
    let s = a + core + b;
    if b.len() > 0 {
        let c = b.last();
        trimming_takes_off_white_space(a, core, b.drop_last());
        assert(is_white(b[b.len() - 1]));
        assert((a + core + b.drop_last()).push(c) =~= s);
        lemma_trim_push(a + core + b.drop_last(), c);
        lemma_trim_start_push(a + core + b.drop_last(), c);
        assert(s.drop_last() =~= a + core + b.drop_last());
        if core.len() > 0 {
            assert((core + b.drop_last()).push(c) =~= core + b);
        }
    } else if a.len() > 0 {
        trimming_takes_off_white_space(a.drop_first(), core, b);
        assert(is_white(a[0]));
        assert(s.drop_first() =~= a.drop_first() + core + b);
        if core.len() > 0 {
            assert(s =~= a + core);
            assert(s.last() == core.last());
        }
    } else {
        assert(s =~= core);
        assert(core + b =~= core);
    }
}

/// White space is the space, the tab and the line breaks among the characters of ASCII,
/// and no letter, digit or mark.
pub proof fn what_white_space_is(c: char)
    ensures
        (c as u32) < 128 ==> (is_white(c) <==> c == ' ' || c == '\t' || c == '\n' || c == '\r' || c
            as u32 == 0x0b || c as u32 == 0x0c),
{
}

/// The pieces of a text, with the separator between each two, are the text; and none of
/// them holds the separator.
pub proof fn pieces_join_to_the_text(s: Seq<char>, sep: char)
    ensures
        join(split(s, sep), seq![sep]) == s,
        split(s, sep).len() > 0,
        forall|i: int| 0 <= i < split(s, sep).len() ==> !(#[trigger] split(s, sep)[i]).contains(sep),
    decreases s.len(),
{
    lemma_find_char_bounds(s, sep);
    let i = find_char(s, sep);
    if i < s.len() {
        let rest = s.skip(i + 1);
        pieces_join_to_the_text(rest, sep);
        lemma_join_first(s.take(i), split(rest, sep), seq![sep]);
        assert(s.take(i) + seq![sep] + rest =~= s);
        assert forall|k: int| 0 <= k < split(s, sep).len() implies !(#[trigger] split(
            s,
            sep,
        )[k]).contains(sep) by {
            if k > 0 {
                assert(split(s, sep)[k] == split(rest, sep)[k - 1]);
            }
        }
    } else {
        assert(join(seq![s], seq![sep]) =~= s);
    }
}

pub(crate) proof fn lemma_join_first(first: Seq<char>, parts: Seq<Seq<char>>, sep: Seq<char>)
    requires
        parts.len() > 0,
    ensures
        join(seq![first] + parts, sep) == first + sep + join(parts, sep),
    decreases parts.len(),
{
    let all = seq![first] + parts;
    assert(all.drop_last() =~= seq![first] + parts.drop_last());
    if parts.len() == 1 {
        assert(all.drop_last() =~= seq![first]);
        assert(join(all.drop_last(), sep) =~= first);
    } else {
        lemma_join_first(first, parts.drop_last(), sep);
        assert(join(all, sep) =~= first + sep + join(parts, sep));
    }
}

/// Parts that were joined come apart again, where none of them holds the separator.
pub proof fn joined_parts_come_apart(parts: Seq<Seq<char>>, sep: char)
    requires
        parts.len() > 0,
        forall|i: int| 0 <= i < parts.len() ==> !(#[trigger] parts[i]).contains(sep),
    ensures
        split(join(parts, seq![sep]), sep) == parts,
    decreases parts.len(),
{
    let first = parts[0];
    let s = join(parts, seq![sep]);
    assert forall|k: int| 0 <= k < first.len() implies first[k] != sep by {
        assert(first.contains(first[k]));
    }
    if parts.len() == 1 {
        lemma_find_char(s, sep, s.len() as int);
        assert(split(s, sep) =~= parts);
    } else {
        let rest = parts.drop_first();
        assert(seq![first] + rest =~= parts);
        lemma_join_first(first, rest, seq![sep]);
        let t = join(rest, seq![sep]);
        assert(s =~= first + seq![sep] + t);
        lemma_find_char(s, sep, first.len() as int);
        assert(s.take(first.len() as int) =~= first);
        assert(s.skip(first.len() as int + 1) =~= t);
        assert forall|i: int| 0 <= i < rest.len() implies !(#[trigger] rest[i]).contains(sep) by {
            assert(rest[i] == parts[i + 1]);
        }
        joined_parts_come_apart(rest, sep);
        assert(split(s, sep) =~= parts);
    }
}

/// Lines that were each ended by a line break are read back, whether a carriage return
/// stands before it or not; so are they where the last of them, if it holds anything,
/// was not ended.
pub proof fn lines_are_read_back(ls: Seq<Seq<char>>)
    requires
        forall|i: int|
            0 <= i < ls.len() ==> !(#[trigger] ls[i]).contains('\n') && !ls[i].contains('\r'),
    ensures
        lines(join(ls, seq!['\n']) + seq!['\n']) == (if ls.len() > 0 {
            ls
        } else {
            seq![seq![]]
        }),
        lines(join(ls, seq!['\r', '\n']) + seq!['\r', '\n']) == (if ls.len() > 0 {
            ls
        } else {
            seq![seq![]]
        }),
        ls.len() > 0 && ls.last().len() > 0 ==> lines(join(ls, seq!['\n'])) == ls,
    decreases ls.len(),
{
    let lf = seq!['\n'];
    let crlf = seq!['\r', '\n'];
    if ls.len() == 0 {
        let e: Seq<char> = seq![];
        assert(join(ls, lf) + lf =~= e.push('\n'));
        lemma_one_line(e);
        assert(join(ls, crlf) + crlf =~= e.push('\r').push('\n'));
        lemma_one_line(e.push('\r'));
        assert(e.push('\r').drop_last() =~= e);
    } else {
        let l = ls.last();
        let before = ls.drop_last();
        assert(!ls[ls.len() - 1].contains('\n') && !ls[ls.len() - 1].contains('\r'));
        if l.len() > 0 {
            assert(l.contains(l[l.len() - 1]));
        }
        lemma_one_line(l);
        let m = l.push('\r');
        assert forall|k: int| 0 <= k < m.len() implies m[k] != '\n' by {
            if k < l.len() {
                assert(l.contains(l[k]));
            }
        }
        lemma_one_line(m);
        assert(m.drop_last() =~= l);
        assert(strip_cr(l) == l);
        assert(before.push(l) =~= ls);
        if before.len() == 0 {
            assert(join(ls, lf) + lf =~= l.push('\n'));
            assert(join(ls, crlf) + crlf =~= m.push('\n'));
            assert(ls =~= seq![l]);
            if l.len() > 0 {
                lemma_last_line(l);
                assert(lines(l) =~= seq![l]) by {
                    lemma_find_char_bounds(l, '\n');
                    if find_char(l, '\n') < l.len() {
                        assert(l.contains(l[find_char(l, '\n')]));
                    }
                }
            }
        } else {
            lines_are_read_back(before);
            let a = join(before, lf) + lf;
            lemma_lines_concat(a, l.push('\n'));
            assert(join(ls, lf) + lf =~= a + l.push('\n'));
            assert(before + seq![l] =~= ls);
            let b = join(before, crlf) + crlf;
            assert(b.last() == '\n');
            lemma_lines_concat(b, m.push('\n'));
            assert(join(ls, crlf) + crlf =~= b + m.push('\n'));
            if l.len() > 0 {
                lemma_lines_concat(a, l);
                assert(join(ls, lf) =~= a + l);
                assert(lines(l) =~= seq![l]) by {
                    lemma_find_char_bounds(l, '\n');
                    if find_char(l, '\n') < l.len() {
                        assert(l.contains(l[find_char(l, '\n')]));
                    }
                }
            }
        }
    }
}

/// Words are what stands between white space: a text that starts with a word, and goes
/// on with white space or not at all, has that word first and then the words of the
/// rest; and white space before a text changes nothing.
pub proof fn words_stand_between_white_space(word: Seq<char>, gap: char, rest: Seq<char>)
    requires
        word.len() > 0,
        forall|i: int| 0 <= i < word.len() ==> !is_white(#[trigger] word[i]),
        is_white(gap),
    ensures
        words(word) == seq![word],
        words(word + seq![gap] + rest) == seq![word] + words(rest),
        words(seq![gap] + rest) == words(rest),
        words(seq![]) == Seq::<Seq<char>>::empty(),
{
    assert(!is_white(word[0]));
    lemma_find_white(word, word.len() as int);
    assert(word.take(word.len() as int) =~= word);
    assert(word.skip(word.len() as int) =~= seq![]);
    assert(words(word.skip(word.len() as int)) =~= seq![]);
    assert(words(word) =~= seq![word]);
    let g = seq![gap] + rest;
    assert(g.drop_first() =~= rest);
    let s = word + seq![gap] + rest;
    assert(s[0] == word[0]);
    lemma_find_white(s, word.len() as int);
    assert(s.take(word.len() as int) =~= word);
    assert(s.skip(word.len() as int) =~= g);
    assert(words(g) == words(rest));
}

/// What is searched for is found at the first place that it stands at, and nowhere
/// where it does not stand in the text.
pub proof fn the_first_place_is_found(s: Seq<char>, p: Seq<char>)
    ensures
        match find(s, p) {
            Some(i) => 0 <= i && i + p.len() <= s.len() && s.subrange(i, i + p.len()) == p && forall|
                k: int,
            |
                0 <= k < i ==> #[trigger] s.subrange(k, k + p.len()) != p,
            None => forall|k: int|
                0 <= k && k + p.len() <= s.len() ==> #[trigger] s.subrange(k, k + p.len()) != p,
        },
{
    lemma_find_holds(s, p);
    match find(s, p) {
        Some(i) => {
            assert forall|k: int| 0 <= k < i implies #[trigger] s.subrange(k, k + p.len())
                != p by {
                if s.subrange(k, k + p.len()) == p {
                    lemma_find_some(s, p, k);
                }
            }
        },
        None => {
            assert forall|k: int| 0 <= k && k + p.len() <= s.len() implies #[trigger] s.subrange(
                k,
                k + p.len(),
            ) != p by {
                if s.subrange(k, k + p.len()) == p {
                    lemma_find_some(s, p, k);
                }
            }
        },
    }
}

/// Every occurrence is replaced and the rest is kept: a text before the first
/// occurrence stays, and behind it the replacing goes on.
pub proof fn all_occurrences_are_replaced(
    a: Seq<char>,
    b: Seq<char>,
    from: Seq<char>,
    to: Seq<char>,
)
    requires
        from.len() > 0,
        find(a + from + b, from) == Some(a.len() as int),
    ensures
        replace(a + from + b, from, to) == a + to + replace(b, from, to),
    decreases a.len(),
{
    let s = a + from + b;
    if a.len() == 0 {
        assert(s =~= from + b);
        assert(s.take(from.len() as int) =~= from);
        assert(s.skip(from.len() as int) =~= b);
        assert(a + to =~= to);
    } else {
        lemma_prefix_occurs(s, from);
        assert(!from.is_prefix_of(s));
        assert(s.drop_first() =~= a.drop_first() + from + b);
        all_occurrences_are_replaced(a.drop_first(), b, from, to);
        assert(seq![a[0]] + (a.drop_first() + to + replace(b, from, to)) =~= a + to + replace(
            b,
            from,
            to,
        ));
    }
}

/// A text that does not hold what is to be replaced stays as it is.
pub proof fn nothing_to_replace(s: Seq<char>, from: Seq<char>, to: Seq<char>)
    requires
        from.len() > 0,
        find(s, from) is None,
    ensures
        replace(s, from, to) == s,
    decreases s.len(),
{
    if s.len() > 0 {
        assert(find(s.drop_first(), from) is None);
        nothing_to_replace(s.drop_first(), from, to);
        assert(seq![s[0]] + s.drop_first() =~= s);
    }
}

/// A number that was written out is read back, where it is not too large; and what is
/// read is made of digits alone, behind one plus sign at most.
pub proof fn numbers_are_read_back(n: nat, max: nat, s: Seq<char>)
    ensures
        n <= max ==> parse_uint(dec(n), max) == Some(n),
        n <= max ==> parse_uint(seq!['+'] + dec(n), max) == Some(n),
        n > max ==> parse_uint(dec(n), max) is None,
        parse_uint(s, max) is Some ==> s.len() > 0 && parse_uint(s, max)->0 <= max && forall|i: int|
            0 < i < s.len() ==> '0' <= #[trigger] s[i] <= '9',
        parse_uint(s, max) is Some && s[0] != '+' ==> '0' <= s[0] <= '9',
{
    lemma_number_of_dec(n);
    lemma_dec_digits(n);
    assert(is_digit(dec(n)[0]));
    assert((seq!['+'] + dec(n)).drop_first() =~= dec(n));
    if parse_uint(s, max) is Some {
        if s[0] == '+' {
            assert forall|i: int| 0 < i < s.len() implies '0' <= #[trigger] s[i] <= '9' by {
                assert(is_digit(s.drop_first()[i - 1]));
            }
        } else {
            assert(is_digit(s[0]));
            assert forall|i: int| 0 < i < s.len() implies '0' <= #[trigger] s[i] <= '9' by {
                assert(is_digit(s[i]));
            }
        }
    }
}

/// Letters change their case one by one: a capital turns small by thirty-two code
/// points and a small letter large by as many, and nothing else changes.
pub proof fn letters_change_case(s: Seq<char>, i: int)
    requires
        0 <= i < s.len(),
    ensures
        ascii_lower(s).len() == s.len(),
        ascii_upper(s).len() == s.len(),
        ascii_lower(s)[i] as u32 == (if 'A' <= s[i] <= 'Z' {
            s[i] as u32 + 32
        } else {
            s[i] as u32 as int
        }),
        ascii_upper(s)[i] as u32 == (if 'a' <= s[i] <= 'z' {
            s[i] as u32 - 32
        } else {
            s[i] as u32 as int
        }),
        ascii_lower(ascii_lower(s)) == ascii_lower(s),
        ascii_upper(ascii_upper(s)) == ascii_upper(s),
{
    assert(ascii_lower(ascii_lower(s)) =~= ascii_lower(s));
    assert(ascii_upper(ascii_upper(s)) =~= ascii_upper(s));
}

/// The last occurrence of a character is found.
pub proof fn the_last_place_is_found(a: Seq<char>, c: char, b: Seq<char>)
    requires
        !b.contains(c),
    ensures
        rfind_char(a + seq![c] + b, c) == Some(a.len() as int),
        rfind_char(b, c) is None,
{
    let s = a + seq![c] + b;
    lemma_rfind_char(b, c);
    if let Some(i) = rfind_char(b, c) {
        assert(b.contains(b[i]));
    }
    lemma_rfind_char(s, c);
    assert(s[a.len() as int] == c);
    assert(s.contains(c));
    let i = rfind_char(s, c)->0;
    if i > a.len() {
        assert(b.contains(b[i - a.len() - 1]));
    }
}

/// Trimming never makes a text longer.
pub(crate) proof fn lemma_trim_shorter(s: Seq<char>)
    ensures
        trim(s).len() <= s.len(),
{
    lemma_trim_start_shorter(s);
    lemma_trim_end(trim_start(s));
}

proof fn lemma_trim_start_shorter(s: Seq<char>)
    ensures
        trim_start(s).len() <= s.len(),
    decreases s.len(),
{
    if s.len() > 0 && is_white(s[0]) {
        lemma_trim_start_shorter(s.drop_first());
    }
}

} // verus!
