//! Making recorded terminal output safe to replay into a fresh terminal.
//!
//! Recorded output holds the *questions* a program asked its terminal, and a
//! terminal answers a question whenever it reads one. The replayed copy has the
//! questions taken out; a question renders nothing, so nothing on screen is
//! lost. Live bytes are never passed through here.

use vstd::prelude::*;

use crate::list;

verus! {

pub const ESC: u8 = 0x1b;

pub const BEL: u8 = 0x07;

/// The first position at or after `from` whose byte is not within `lo..=hi`.
pub open spec fn run_end(s: Seq<u8>, from: int, lo: u8, hi: u8) -> int
    decreases s.len() - from,
{
    if 0 <= from < s.len() && lo <= s[from] <= hi {
        run_end(s, from + 1, lo, hi)
    } else {
        from
    }
}

/// Where the parameter bytes from `start` on, and the intermediate bytes behind them,
/// are over.
pub open spec fn csi_stop(s: Seq<u8>, start: int) -> int {
    run_end(s, run_end(s, start, 0x30, 0x3f), 0x20, 0x2f)
}

/// Where the control sequence whose parameters start at `start` has its final
/// byte: parameter bytes, then intermediate bytes, then one final byte.
pub open spec fn csi_final(s: Seq<u8>, start: int) -> Option<int> {
    let i = csi_stop(s, start);
    if i < s.len() && 0x40 <= s[i] <= 0x7e {
        Some(i)
    } else {
        None
    }
}

/// Whether a control sequence, given from its parameters to its final byte, asks
/// the terminal something.
pub open spec fn csi_asks(seq: Seq<u8>) -> bool {
    seq.len() > 0 && {
        let params = seq.drop_last();
        ||| seq.last() == 0x63
        ||| seq.last() == 0x6e
        ||| seq.last() == 0x75 && params == seq![0x3fu8]
        ||| seq.last() == 0x71 && params.len() > 0 && params[0] == 0x3e
    }
}

/// Whether an operating system command is ended at `i`: by a bell, or by an
/// escape and a backslash.
pub open spec fn osc_ends_at(s: Seq<u8>, i: int) -> bool {
    0 <= i < s.len() && (s[i] == BEL || (s[i] == ESC && i + 1 < s.len() && s[i + 1] == 0x5c))
}

/// Where the operating system command whose body starts at `start` is ended: the
/// end of its body and its last byte.
pub open spec fn osc_bounds(s: Seq<u8>, start: int) -> Option<(int, int)>
    decreases s.len() - start,
{
    if !(0 <= start < s.len()) {
        None
    } else if osc_ends_at(s, start) {
        Some((start, if s[start] == BEL {
            start
        } else {
            start + 1
        }))
    } else {
        osc_bounds(s, start + 1)
    }
}

/// Whether the last field of an operating system command is a question mark.
pub open spec fn osc_asks(body: Seq<u8>) -> bool {
    body.len() > 0 && body.last() == 0x3f && (body.len() == 1 || body[body.len() - 2] == 0x3b)
}

/// How many bytes of non-empty output belong together: a control sequence, an
/// operating system command, or one byte. A sequence that is cut off by the end of
/// the output takes all that is left, and a control sequence that is broken off by a
/// byte which none can have ends before that byte.
pub open spec fn unit_len(s: Seq<u8>) -> int {
    if s.len() < 2 || s[0] != ESC {
        1
    } else if s[1] == 0x5b {
        match csi_final(s, 2) {
            Some(end) => end + 1,
            None => csi_stop(s, 2),
        }
    } else if s[1] == 0x5d {
        match osc_bounds(s, 2) {
            Some((_, end)) => end + 1,
            None => s.len() as int,
        }
    } else {
        1
    }
}

/// Whether bytes that belong together are a question to the terminal.
pub open spec fn asks(u: Seq<u8>) -> bool {
    &&& u.len() >= 2
    &&& u[0] == ESC
    &&& (u[1] == 0x5b && csi_final(u, 2) is Some && csi_asks(u.skip(2))) || (u[1] == 0x5d
        && match osc_bounds(u, 2) {
        Some((body_end, _)) => osc_asks(u.subrange(2, body_end)),
        None => false,
    })
}

/// The output cut into bytes that belong together.
pub open spec fn units(s: Seq<u8>) -> Seq<Seq<u8>>
    decreases s.len(),
{
    if s.len() == 0 {
        seq![]
    } else {
        proof {
            lemma_unit_len(s);
        }
        seq![s.take(unit_len(s))] + units(s.skip(unit_len(s)))
    }
}

/// What is kept.
pub open spec fn silent() -> spec_fn(Seq<u8>) -> bool {
    |u: Seq<u8>| !asks(u)
}

/// The units that are no questions, one after the other.
pub open spec fn answers_nothing(us: Seq<Seq<u8>>) -> Seq<u8> {
    us.filter(silent()).flatten()
}

proof fn lemma_run_end(s: Seq<u8>, from: int, lo: u8, hi: u8)
    requires
        0 <= from <= s.len(),
    ensures
        from <= run_end(s, from, lo, hi) <= s.len(),
        forall|k: int| from <= k < run_end(s, from, lo, hi) ==> lo <= #[trigger] s[k] && s[k] <= hi,
    decreases s.len() - from,
{
    if from < s.len() && lo <= s[from] <= hi {
        lemma_run_end(s, from + 1, lo, hi);
    }
}

proof fn lemma_run_end_is(s: Seq<u8>, from: int, lo: u8, hi: u8, i: int)
    requires
        0 <= from <= i <= s.len(),
        forall|k: int| from <= k < i ==> lo <= #[trigger] s[k] && s[k] <= hi,
        i < s.len() ==> !(lo <= s[i] <= hi),
    ensures
        run_end(s, from, lo, hi) == i,
    decreases i - from,
{
    if from < i {
        lemma_run_end_is(s, from + 1, lo, hi, i);
    }
}

proof fn lemma_osc_bounds(s: Seq<u8>, start: int)
    requires
        0 <= start <= s.len(),
    ensures
        match osc_bounds(s, start) {
            Some((b, e)) => start <= b <= e < s.len() && osc_ends_at(s, b) && (forall|k: int|
                start <= k < b ==> !osc_ends_at(s, k)) && e == (if s[b] == BEL {
                b
            } else {
                b + 1
            }),
            None => forall|k: int| start <= k < s.len() ==> !osc_ends_at(s, k),
        },
    decreases s.len() - start,
{
    if start < s.len() && !osc_ends_at(s, start) {
        lemma_osc_bounds(s, start + 1);
    }
}

proof fn lemma_osc_bounds_is(s: Seq<u8>, start: int, b: int)
    requires
        0 <= start <= b < s.len(),
        osc_ends_at(s, b),
        forall|k: int| start <= k < b ==> !osc_ends_at(s, k),
    ensures
        osc_bounds(s, start) == Some((b, if s[b] == BEL {
            b
        } else {
            b + 1
        })),
    decreases b - start,
{
    if start < b {
        assert(!osc_ends_at(s, start));
        lemma_osc_bounds_is(s, start + 1, b);
    }
}

pub proof fn lemma_unit_len(s: Seq<u8>)
    requires
        s.len() > 0,
    ensures
        0 < unit_len(s) <= s.len(),
{
    if s.len() >= 2 {
        lemma_run_end(s, 2, 0x30, 0x3f);
        lemma_run_end(s, run_end(s, 2, 0x30, 0x3f), 0x20, 0x2f);
        lemma_osc_bounds(s, 2);
    }
}

/// A sequence reads the same with and without what follows it.
proof fn lemma_unit_alone(s: Seq<u8>)
    requires
        s.len() >= 2,
        s[0] == ESC,
    ensures
        2 <= csi_stop(s, 2) <= s.len(),
        match csi_final(s, 2) {
            Some(end) => 2 <= end < s.len() && csi_final(s.take(end + 1), 2) == Some(end),
            None => csi_stop(s.take(csi_stop(s, 2)), 2) == csi_stop(s, 2) && csi_final(
                s.take(csi_stop(s, 2)),
                2,
            ) is None,
        },
        match osc_bounds(s, 2) {
            Some((b, e)) => 2 <= b <= e < s.len() && osc_bounds(s.take(e + 1), 2) == Some((b, e)),
            None => true,
        },
{
    let p = run_end(s, 2, 0x30, 0x3f);
    let q = run_end(s, p, 0x20, 0x2f);
    lemma_run_end(s, 2, 0x30, 0x3f);
    lemma_run_end(s, p, 0x20, 0x2f);
    if csi_final(s, 2) is Some {
        let t = s.take(q + 1);
        assert(p < s.len() && p <= q ==> t[p] == s[p]);
        lemma_run_end_stop(s, 2, 0x30, 0x3f);
        lemma_run_end_is(t, 2, 0x30, 0x3f, p);
        lemma_run_end_is(t, p, 0x20, 0x2f, q);
    } else {
        let t = s.take(q);
        assert(p < q ==> t[p] == s[p]);
        lemma_run_end_stop(s, 2, 0x30, 0x3f);
        lemma_run_end_is(t, 2, 0x30, 0x3f, p);
        lemma_run_end_is(t, p, 0x20, 0x2f, q);
    }
    lemma_osc_bounds(s, 2);
    if let Some((b, e)) = osc_bounds(s, 2) {
        let t = s.take(e + 1);
        assert forall|k: int| 2 <= k < b implies !osc_ends_at(t, k) by {
            assert(!osc_ends_at(s, k));
        }
        lemma_osc_bounds_is(t, 2, b);
    }
}

proof fn lemma_run_end_stop(s: Seq<u8>, from: int, lo: u8, hi: u8)
    requires
        0 <= from <= s.len(),
    ensures
        run_end(s, from, lo, hi) < s.len() ==> !(lo <= s[run_end(s, from, lo, hi)] <= hi),
    decreases s.len() - from,
{
    if from < s.len() && lo <= s[from] <= hi {
        lemma_run_end_stop(s, from + 1, lo, hi);
    }
}

proof fn lemma_keep_first(u: Seq<u8>, rest: Seq<Seq<u8>>)
    ensures
        answers_nothing(seq![u] + rest) == (if asks(u) {
            seq![]
        } else {
            u
        }) + answers_nothing(rest),
{
    let p = silent();
    rest.lemma_filter_prepend(u, p);
    let kept = (seq![u] + rest).filter(p);
    if p(u) {
        assert(kept == seq![u] + rest.filter(p));
        assert(kept.drop_first() =~= rest.filter(p));
        assert(kept.first() == u);
    } else {
        assert(kept == rest.filter(p));
        assert(seq![] + answers_nothing(rest) =~= answers_nothing(rest));
    }
}

/// Cutting the output up loses nothing: its pieces, put back together, are the
/// output.
pub proof fn units_are_the_output(s: Seq<u8>)
    ensures
        units(s).flatten() == s,
    decreases s.len(),
{
    if s.len() > 0 {
        lemma_unit_len(s);
        let n = unit_len(s);
        units_are_the_output(s.skip(n));
        assert(units(s).drop_first() =~= units(s.skip(n)));
        assert(s.take(n) + s.skip(n) =~= s);
    }
}

/// Output that holds no escape goes through untouched, whatever follows it.
pub proof fn plain_output_goes_through(plain: Seq<u8>, rest: Seq<u8>)
    requires
        !plain.contains(ESC),
    ensures
        answers_nothing(units(plain + rest)) == plain + answers_nothing(units(rest)),
    decreases plain.len(),
{
    if plain.len() == 0 {
        assert(plain + rest =~= rest);
        assert(plain + answers_nothing(units(rest)) =~= answers_nothing(units(rest)));
    } else {
        let s = plain + rest;
        assert(plain.contains(plain[0]));
        assert(s[0] != ESC);
        assert(unit_len(s) == 1);
        assert(s.skip(1) =~= plain.drop_first() + rest);
        assert forall|x: u8| plain.drop_first().contains(x) implies plain.contains(x) by {
            let k = choose|k: int|
                0 <= k < plain.drop_first().len() && plain.drop_first()[k] == x;
            assert(plain[k + 1] == x);
        }
        plain_output_goes_through(plain.drop_first(), rest);
        lemma_keep_first(s.take(1), units(s.skip(1)));
        assert(s.take(1)[0] != ESC);
        assert(s.take(1) + (plain.drop_first() + answers_nothing(units(rest))) =~= plain
            + answers_nothing(units(rest)));
    }
}

/// A complete sequence reads the same with anything behind it.
proof fn lemma_unit_extends(u: Seq<u8>, x: Seq<u8>)
    requires
        u.len() >= 2,
    ensures
        csi_final(u, 2) == Some(u.len() - 1) ==> csi_final(u + x, 2) == Some(u.len() - 1),
        osc_bounds(u, 2) matches Some((b, e)) && e == u.len() - 1 ==> osc_bounds(u + x, 2)
            == osc_bounds(u, 2),
{
    let t = u + x;
    let p = run_end(u, 2, 0x30, 0x3f);
    let q = run_end(u, p, 0x20, 0x2f);
    lemma_run_end(u, 2, 0x30, 0x3f);
    lemma_run_end(u, p, 0x20, 0x2f);
    lemma_run_end_stop(u, 2, 0x30, 0x3f);
    lemma_run_end_stop(u, p, 0x20, 0x2f);
    if csi_final(u, 2) == Some(u.len() - 1) {
        lemma_run_end_is(t, 2, 0x30, 0x3f, p);
        lemma_run_end_is(t, p, 0x20, 0x2f, q);
    }
    lemma_osc_bounds(u, 2);
    if let Some((b, e)) = osc_bounds(u, 2) {
        if e == u.len() - 1 {
            assert forall|k: int| 2 <= k < b implies !osc_ends_at(t, k) by {
                assert(!osc_ends_at(u, k));
            }
            lemma_osc_bounds_is(t, 2, b);
        }
    }
}

proof fn lemma_first_unit(u: Seq<u8>, rest: Seq<u8>)
    requires
        u.len() > 0,
        unit_len(u + rest) == u.len(),
    ensures
        answers_nothing(units(u + rest)) == (if asks(u) {
            seq![]
        } else {
            u
        }) + answers_nothing(units(rest)),
{
    let s = u + rest;
    assert(s.take(u.len() as int) =~= u);
    assert(s.skip(u.len() as int) =~= rest);
    lemma_keep_first(u, units(rest));
}

/// Of the complete control sequences (an escape and a bracket, parameter bytes,
/// intermediate bytes and one final byte), those ending in `c` or `n` are taken out,
/// and so are the one that is a question mark and `u`, and those that start with `>` and
/// end in `q`. Every other one goes through as it is, whatever follows it.
pub proof fn a_control_sequence_goes_by_its_last_byte(
    params: Seq<u8>,
    between: Seq<u8>,
    last: u8,
    rest: Seq<u8>,
)
    requires
        forall|i: int| 0 <= i < params.len() ==> 0x30 <= #[trigger] params[i] && params[i] <= 0x3f,
        forall|i: int|
            0 <= i < between.len() ==> 0x20 <= #[trigger] between[i] && between[i] <= 0x2f,
        0x40 <= last <= 0x7e,
    ensures
        ({
            let s = seq![0x1bu8, 0x5bu8] + params + between + seq![last];
            let whole = answers_nothing(units(s + rest));
            let after = answers_nothing(units(rest));
            let question = last == 0x63 || last == 0x6e || (last == 0x75 && params == seq![0x3fu8]
                && between.len() == 0) || (last == 0x71 && params.len() > 0 && params[0] == 0x3e);
            &&& question ==> whole == after
            &&& !question ==> whole == s + after
            &&& last != 0x63 && last != 0x6e && last != 0x75 && last != 0x71 ==> whole == s + after
        }),
{
    let s = seq![0x1bu8, 0x5bu8] + params + between + seq![last];
    let p: int = 2int + params.len();
    let q: int = p + between.len();
    assert forall|k: int| 2 <= k < p implies 0x30 <= #[trigger] s[k] && s[k] <= 0x3f by {
        assert(s[k] == params[k - 2]);
    }
    assert forall|k: int| p <= k < q implies 0x20 <= #[trigger] s[k] && s[k] <= 0x2f by {
        assert(s[k] == between[k - p]);
    }
    assert(s[q] == last);
    if p < q {
        assert(s[p] == between[0]);
    }
    lemma_run_end_is(s, 2, 0x30, 0x3f, p);
    lemma_run_end_is(s, p, 0x20, 0x2f, q);
    lemma_unit_extends(s, rest);
    assert((s + rest)[0] == 0x1b && (s + rest)[1] == 0x5b);
    lemma_first_unit(s, rest);
    let body = params + between;
    assert(s.skip(2) =~= body.push(last));
    assert(s.skip(2).drop_last() =~= body);
    if params == seq![0x3fu8] && between.len() == 0 {
        assert(body =~= seq![0x3fu8]);
    }
    if body == seq![0x3fu8] {
        if params.len() == 0 {
            assert(body[0] == between[0]);
        } else {
            assert(params =~= seq![0x3fu8]);
        }
    }
    if body.len() > 0 && body[0] == 0x3e && params.len() == 0 {
        assert(body[0] == between[0]);
    }
    assert(Seq::<u8>::empty() + answers_nothing(units(rest)) =~= answers_nothing(units(rest)));
}

/// A complete operating system command (an escape and a closing bracket, a body, and a
/// bell or an escape and a backslash) is taken out where the last field of its body is a
/// question mark, and goes through as it is where it is not.
pub proof fn a_command_goes_by_its_last_field(body: Seq<u8>, bell: bool, rest: Seq<u8>)
    requires
        forall|i: int| 0 <= i < body.len() ==> #[trigger] body[i] != 0x07,
        forall|i: int|
            0 <= i < body.len() - 1 ==> !(#[trigger] body[i] == 0x1b && body[i + 1] == 0x5c),
    ensures
        ({
            let end = if bell {
                seq![0x07u8]
            } else {
                seq![0x1bu8, 0x5cu8]
            };
            let s = seq![0x1bu8, 0x5du8] + body + end;
            let whole = answers_nothing(units(s + rest));
            let after = answers_nothing(units(rest));
            if body == seq![0x3fu8] || (body.len() >= 2 && body.last() == 0x3f && body[body.len()
                - 2] == 0x3b) {
                whole == after
            } else {
                whole == s + after
            }
        }),
{
    let end = if bell {
        seq![0x07u8]
    } else {
        seq![0x1bu8, 0x5cu8]
    };
    let s = seq![0x1bu8, 0x5du8] + body + end;
    let b: int = 2int + body.len();
    assert(s[b] == end[0]);
    if !bell {
        assert(s[b + 1] == end[1]);
    }
    assert(osc_ends_at(s, b));
    assert forall|k: int| 2 <= k < b implies !osc_ends_at(s, k) by {
        assert(s[k] == body[k - 2]);
        if k + 1 < b {
            assert(s[k + 1] == body[k - 2 + 1]);
        }
    }
    lemma_osc_bounds_is(s, 2, b);
    lemma_unit_extends(s, rest);
    assert((s + rest)[0] == 0x1b && (s + rest)[1] == 0x5d);
    lemma_first_unit(s, rest);
    assert(s.subrange(2, b) =~= body);
    if body.len() == 1 && body.last() == 0x3f {
        assert(body =~= seq![0x3fu8]);
    }
    assert(Seq::<u8>::empty() + answers_nothing(units(rest)) =~= answers_nothing(units(rest)));
}

/// An escape before any other byte, or at the end, stays and takes nothing with it.
pub proof fn another_escape_goes_through(rest: Seq<u8>)
    requires
        rest.len() > 0 ==> rest[0] != 0x5b && rest[0] != 0x5d,
    ensures
        answers_nothing(units(seq![0x1bu8] + rest)) == seq![0x1bu8] + answers_nothing(units(rest)),
{
    let s = seq![0x1bu8] + rest;
    if rest.len() > 0 {
        assert(s[1] == rest[0]);
    }
    lemma_first_unit(seq![0x1bu8], rest);
}

/// A control sequence that has no final byte stays, however it is broken off: by the end
/// of the output, or by a byte that none can have, from which the output is read on.
pub proof fn a_broken_sequence_goes_through(params: Seq<u8>, between: Seq<u8>, rest: Seq<u8>)
    requires
        forall|i: int| 0 <= i < params.len() ==> 0x30 <= #[trigger] params[i] && params[i] <= 0x3f,
        forall|i: int|
            0 <= i < between.len() ==> 0x20 <= #[trigger] between[i] && between[i] <= 0x2f,
        rest.len() > 0 ==> !(0x20 <= rest[0] <= 0x7e) || (between.len() > 0 && 0x30 <= rest[0]
            <= 0x3f),
    ensures
        ({
            let s = seq![0x1bu8, 0x5bu8] + params + between;
            answers_nothing(units(s + rest)) == s + answers_nothing(units(rest))
        }),
{
    let s = seq![0x1bu8, 0x5bu8] + params + between;
    let t = s + rest;
    let p: int = 2int + params.len();
    let q: int = p + between.len();
    assert forall|k: int| 2 <= k < p implies 0x30 <= #[trigger] t[k] && t[k] <= 0x3f by {
        assert(t[k] == params[k - 2]);
    }
    assert forall|k: int| p <= k < q implies 0x20 <= #[trigger] t[k] && t[k] <= 0x2f by {
        assert(t[k] == between[k - p]);
    }
    if q < t.len() {
        assert(t[q] == rest[0]);
    }
    if p < q {
        assert(t[p] == between[0]);
    }
    lemma_run_end_is(t, 2, 0x30, 0x3f, p);
    lemma_run_end_is(t, p, 0x20, 0x2f, q);
    assert(t[0] == 0x1b && t[1] == 0x5b);
    assert(unit_len(t) == s.len());
    lemma_first_unit(s, rest);
    assert forall|k: int| 2 <= k < p implies 0x30 <= #[trigger] s[k] && s[k] <= 0x3f by {
        assert(s[k] == t[k]);
    }
    assert forall|k: int| p <= k < q implies 0x20 <= #[trigger] s[k] && s[k] <= 0x2f by {
        assert(s[k] == t[k]);
    }
    if p < q {
        assert(s[p] == t[p]);
    }
    lemma_run_end_is(s, 2, 0x30, 0x3f, p);
    lemma_run_end_is(s, p, 0x20, 0x2f, q);
}

/// Where a control sequence breaks off shows at the byte that it breaks off at.
proof fn lemma_stop_agrees(w: Seq<u8>, t: Seq<u8>)
    requires
        2 <= csi_stop(w, 2) < w.len(),
        csi_stop(w, 2) < t.len(),
        t.take(csi_stop(w, 2) + 1) == w.take(csi_stop(w, 2) + 1),
    ensures
        csi_stop(t, 2) == csi_stop(w, 2),
{
    let p = run_end(w, 2, 0x30, 0x3f);
    let q = csi_stop(w, 2);
    lemma_run_end(w, 2, 0x30, 0x3f);
    lemma_run_end(w, p, 0x20, 0x2f);
    lemma_run_end_stop(w, 2, 0x30, 0x3f);
    lemma_run_end_stop(w, p, 0x20, 0x2f);
    assert forall|k: int| 0 <= k <= q implies #[trigger] t[k] == w[k] by {
        assert(t.take(q + 1)[k] == w.take(q + 1)[k]);
    }
    lemma_run_end_is(t, 2, 0x30, 0x3f, p);
    lemma_run_end_is(t, p, 0x20, 0x2f, q);
}

/// A broken control sequence is read as before with other bytes behind it, where its
/// neighbour among them does not continue it.
proof fn lemma_broken_stays(s: Seq<u8>, next: Seq<u8>, out: Seq<u8>)
    requires
        s.len() >= 2,
        s[0] == ESC,
        s[1] == 0x5b,
        csi_final(s, 2) is None,
        0 < next.len() <= out.len(),
        next == out.take(next.len() as int),
        unit_len(s.take(csi_stop(s, 2)) + next) == csi_stop(s, 2),
    ensures
        unit_len(s.take(csi_stop(s, 2)) + out) == csi_stop(s, 2),
{
    let n = csi_stop(s, 2);
    let p = run_end(s, 2, 0x30, 0x3f);
    lemma_run_end(s, 2, 0x30, 0x3f);
    lemma_run_end(s, p, 0x20, 0x2f);
    let w = s.take(n) + next;
    let t = s.take(n) + out;
    lemma_unit_alone(w);
    if let Some(e) = csi_final(w, 2) {
        assert(e == n - 1);
        assert(w[e] == s[e]);
        assert(0x20 <= s[e] <= 0x3f);
    }
    assert(csi_stop(w, 2) == n);
    assert(t.take(n + 1) =~= w.take(n + 1)) by {
        assert(next[0] == out[0]);
    }
    lemma_stop_agrees(w, t);
    assert(t[n] == w[n]);
}

/// Whether a piece that is no whole sequence, a lone escape or a broken control
/// sequence, comes to stand before one that it is read together with, once the
/// questions between them are gone.
pub open spec fn joins(kept: Seq<Seq<u8>>) -> bool {
    exists|i: int|
        0 <= i < kept.len() - 1 && unit_len(#[trigger] kept[i] + kept[i + 1]) != kept[i].len()
}

/// The first piece of some output is read again with other bytes behind it, where its
/// neighbour among them is not read together with it.
proof fn lemma_first_again(s: Seq<u8>, next: Seq<u8>, out: Seq<u8>)
    requires
        s.len() > 0,
        unit_len(s) == s.len() ==> out.len() == 0,
        out.len() > 0 ==> 0 < next.len() <= out.len() && next == out.take(next.len() as int)
            && unit_len(s.take(unit_len(s)) + next) == unit_len(s),
    ensures
        unit_len(s.take(unit_len(s)) + out) == unit_len(s),
{
    lemma_unit_len(s);
    let n = unit_len(s);
    let u = s.take(n);
    let t = u + out;
    if s.len() >= 2 && s[0] == ESC {
        lemma_unit_alone(s);
        if n == s.len() {
            assert(t =~= s);
        } else if s[1] == 0x5b && csi_final(s, 2) is None {
            if out.len() > 0 {
                lemma_broken_stays(s, next, out);
            } else {
                assert(t =~= u);
            }
        } else if n >= 2 {
            lemma_unit_extends(u, out);
        } else if out.len() > 0 {
            let w = u + next;
            assert(w[1] == next[0] && t[1] == out[0]);
            assert(next[0] == out[0]);
            lemma_unit_alone(w);
            lemma_osc_bounds(w, 2);
        }
    }
}

/// The kept units are read again, one by one.
proof fn lemma_read_again(s: Seq<u8>)
    requires
        !joins(units(s).filter(silent())),
    ensures
        units(answers_nothing(units(s))) == units(s).filter(silent()),
    decreases s.len(),
{
    if s.len() == 0 {
        assert(units(s).filter(silent()) =~= seq![]);
        assert(answers_nothing(units(s)) =~= seq![]);
    } else {
        lemma_unit_len(s);
        let n = unit_len(s);
        let u = s.take(n);
        let r = s.skip(n);
        let kept = units(s).filter(silent());
        let rest = units(r).filter(silent());
        let out = answers_nothing(units(r));
        units(r).lemma_filter_prepend(u, silent());
        lemma_keep_first(u, units(r));
        if asks(u) {
            assert(kept =~= rest);
            assert(seq![] + out =~= out);
            lemma_read_again(r);
        } else {
            assert(kept =~= seq![u] + rest);
            assert forall|i: int| 0 <= i < rest.len() - 1 implies unit_len(
                #[trigger] rest[i] + rest[i + 1],
            ) == rest[i].len() by {
                assert(kept[i + 1] == rest[i]);
                assert(kept[i + 2] == rest[i + 1]);
            }
            lemma_read_again(r);
            let t = u + out;
            if out.len() > 0 {
                lemma_unit_len(out);
                assert(units(out)[0] == out.take(unit_len(out)));
                assert(rest[0] == out.take(unit_len(out)));
                assert(kept[0] == u && kept[1] == rest[0]);
                assert(unit_len(kept[0] + kept[1]) == kept[0].len());
            }
            if n == s.len() {
                assert(r =~= seq![]);
                assert(units(r) =~= seq![]);
                assert(out =~= seq![]);
            }
            lemma_first_again(s, rest[0], out);
            assert(t.take(n) =~= u);
            assert(t.skip(n) =~= out);
            assert(units(t) =~= seq![u] + units(out));
        }
    }
}

/// What is replayed is read as the very pieces that were kept, so it asks the
/// terminal nothing, and there is nothing left to take out of it. That is so unless
/// taking a question out joins a lone escape, or a broken control sequence, to what
/// stood behind the question.
pub proof fn a_replay_asks_nothing(s: Seq<u8>)
    requires
        !joins(units(s).filter(silent())),
    ensures
        units(answers_nothing(units(s))) == units(s).filter(silent()),
        forall|i: int|
            0 <= i < units(answers_nothing(units(s))).len() ==> !asks(
                #[trigger] units(answers_nothing(units(s)))[i],
            ),
        answers_nothing(units(answers_nothing(units(s)))) == answers_nothing(units(s)),
{
    let kept = units(s).filter(silent());
    lemma_read_again(s);
    assert forall|i: int| 0 <= i < kept.len() implies !asks(#[trigger] kept[i]) by {
        units(s).lemma_filter_pred(silent(), i);
    }
    list::lemma_filter_all(kept, silent());
}

fn stop_of(input: &[u8], start: usize) -> (r: usize)
    requires
        start <= input.len(),
    ensures
        start <= r <= input.len(),
        r == csi_stop(input@, start as int),
{
    let mut i: usize = start;
    while i < input.len() && 0x30 <= input[i] && input[i] <= 0x3f
        invariant
            start <= i <= input.len(),
            forall|k: int| start <= k < i ==> 0x30 <= #[trigger] input[k] && input[k] <= 0x3f,
        decreases input.len() - i,
    {
        i = i + 1;
    }
    proof {
        lemma_run_end_is(input@, start as int, 0x30, 0x3f, i as int);
    }
    let mut j: usize = i;
    while j < input.len() && 0x20 <= input[j] && input[j] <= 0x2f
        invariant
            start <= i <= j <= input.len(),
            forall|k: int| i <= k < j ==> 0x20 <= #[trigger] input[k] && input[k] <= 0x2f,
        decreases input.len() - j,
    {
        j = j + 1;
    }
    proof {
        lemma_run_end_is(input@, i as int, 0x20, 0x2f, j as int);
    }
    j
}

/// Index of a control sequence's final byte, starting from just past `ESC [`.
pub fn csi_end(input: &[u8], start: usize) -> (r: Option<usize>)
    requires
        start <= input.len(),
    ensures
        match r {
            Some(i) => start <= i < input.len() && csi_final(input@, start as int) == Some(i as int),
            None => csi_final(input@, start as int) is None,
        },
{
    let j: usize = stop_of(input, start);
    if j < input.len() && 0x40 <= input[j] && input[j] <= 0x7e {
        Some(j)
    } else {
        None
    }
}

/// Whether a control sequence, given its bytes after `ESC [` up to its final
/// byte, asks the terminal something: device attributes (`c`), a status report
/// (`n`), the keyboard flags (`?u`) or the terminal's name (`>q`). The other `u`
/// and `q` forms set something and have to survive a replay.
pub fn is_csi_query(seq: &[u8]) -> (r: bool)
    ensures
        r == csi_asks(seq@),
{
    if seq.len() == 0 {
        return false;
    }
    let n: usize = seq.len() - 1;
    let last: u8 = seq[n];
    if last == 0x63 || last == 0x6e {
        true
    } else if last == 0x75 {
        let r = n == 1 && seq[0] == 0x3f;
        assert(r ==> seq@.drop_last() =~= seq![0x3fu8]);
        assert(seq@.drop_last() == seq![0x3fu8] ==> seq@.drop_last()[0] == 0x3f);
        r
    } else if last == 0x71 {
        n > 0 && seq[0] == 0x3e
    } else {
        false
    }
}

/// The end of an operating system command starting just past `ESC ]`, as the end
/// of its body and its last byte.
pub fn osc_end(input: &[u8], start: usize) -> (r: Option<(usize, usize)>)
    requires
        start <= input.len(),
    ensures
        match r {
            Some((b, e)) => start <= b <= e < input.len() && osc_bounds(input@, start as int)
                == Some((b as int, e as int)),
            None => osc_bounds(input@, start as int) is None,
        },
{
    let mut i: usize = start;
    while i < input.len()
        invariant
            start <= i <= input.len(),
            osc_bounds(input@, start as int) == osc_bounds(input@, i as int),
        decreases input.len() - i,
    {
        if input[i] == BEL {
            return Some((i, i));
        }
        if input[i] == ESC && i + 1 < input.len() && input[i + 1] == 0x5c {
            return Some((i, i + 1));
        }
        i = i + 1;
    }
    None
}

/// Whether the body of an operating system command asks the terminal something:
/// its last field is a question mark where setting a value would name one.
pub fn is_osc_query(body: &[u8]) -> (r: bool)
    ensures
        r == osc_asks(body@),
{
    let n: usize = body.len();
    n > 0 && body[n - 1] == 0x3f && (n == 1 || body[n - 2] == 0x3b)
}

fn copy_into(out: &mut Vec<u8>, input: &[u8], from: usize, to: usize)
    requires
        from <= to <= input.len(),
    ensures
        final(out)@ == old(out)@ + input@.subrange(from as int, to as int),
{
    let ghost before = out@;
    let mut i: usize = from;
    while i < to
        invariant
            from <= i <= to <= input.len(),
            out@ == before + input@.subrange(from as int, i as int),
        decreases to - i,
    {
        out.push(input[i]);
        i = i + 1;
        assert(out@ =~= before + input@.subrange(from as int, i as int));
    }
}

/// Remove terminal queries from recorded output, leaving everything else byte
/// for byte.
pub fn strip_queries(input: &[u8]) -> (out: Vec<u8>)
    ensures
        out@ == answers_nothing(units(input@)),
{
    let mut out: Vec<u8> = Vec::new();
    let mut i: usize = 0;
    assert(input@.skip(0) =~= input@);
    assert(out@ + answers_nothing(units(input@)) =~= answers_nothing(units(input@)));
    while i < input.len()
        invariant
            i <= input.len(),
            out@ + answers_nothing(units(input@.skip(i as int))) == answers_nothing(units(input@)),
        decreases input.len() - i,
    {
        let rest = vstd::slice::slice_subrange(input, i, input.len());
        assert(rest@ =~= input@.skip(i as int));
        proof {
            lemma_unit_len(rest@);
            if rest@.len() >= 2 && rest@[0] == ESC {
                lemma_unit_alone(rest@);
            }
        }
        let mut n: usize = 1;
        let mut question: bool = false;
        if rest[0] == ESC && rest.len() > 1 {
            if rest[1] == 0x5b {
                match csi_end(rest, 2) {
                    Some(end) => {
                        n = end + 1;
                        let seq = vstd::slice::slice_subrange(rest, 2, n);
                        question = is_csi_query(seq);
                        assert(rest@.take(n as int).skip(2) =~= seq@);
                    },
                    None => {
                        n = stop_of(rest, 2);
                    },
                }
            } else if rest[1] == 0x5d {
                match osc_end(rest, 2) {
                    Some((body_end, seq_end)) => {
                        n = seq_end + 1;
                        let body = vstd::slice::slice_subrange(rest, 2, body_end);
                        question = is_osc_query(body);
                        assert(rest@.take(n as int).subrange(2, body_end as int) =~= body@);
                    },
                    None => {
                        n = rest.len();
                        assert(rest@.take(n as int) =~= rest@);
                    },
                }
            }
        }
        let ghost before = out@;
        proof {
            assert(n == unit_len(rest@));
            let u = rest@.take(n as int);
            assert(question == asks(u));
            lemma_keep_first(u, units(rest@.skip(n as int)));
            assert(rest@.skip(n as int) =~= input@.skip(i + n));
            assert(u =~= input@.subrange(i as int, i + n));
        }
        if !question {
            copy_into(&mut out, input, i, i + n);
        }
        i = i + n;
        proof {
            let tail = answers_nothing(units(input@.skip(i as int)));
            if question {
                assert(before + (seq![] + tail) =~= out@ + tail);
            } else {
                assert(before + (rest@.take(n as int) + tail) =~= out@ + tail);
            }
        }
    }
    assert(input@.skip(i as int) =~= seq![]);
    proof {
        let none: Seq<Seq<u8>> = seq![];
        assert(units(input@.skip(i as int)) =~= none);
        assert(none.filter(silent()) =~= none) by {
            none.lemma_filter_len(silent());
        }
        assert(out@ + answers_nothing(none) =~= out@);
    }
    out
}

} // verus!
