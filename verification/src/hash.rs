//! Hashes that stay the same from one run to the next.

use vstd::prelude::*;

verus! {

/// The hash of a text.
pub uninterp spec fn default_hash(s: Seq<char>) -> u64;

/// The hash of a text by std's `BuildHasher::hash_one`, under the `DefaultHasher` that
/// its `Default` makes. Hashers that are made this way are all alike, so the hash
/// depends on the text alone, as long as it is the same std.
#[verifier::external_body]
pub(crate) fn hash_of(s: &str) -> (r: u64)
    ensures
        r == default_hash(s@),
{
    let hashers: std::hash::BuildHasherDefault<std::collections::hash_map::DefaultHasher> =
        Default::default();
    std::hash::BuildHasher::hash_one(&hashers, s)
}

/// A hexadecimal digit.
pub open spec fn hex_digit(d: nat) -> char {
    if d < 10 {
        (48 + d) as char
    } else {
        (87 + d) as char
    }
}

/// The last hexadecimal digits of a number, so many of them.
pub open spec fn hex(n: nat, digits: nat) -> Seq<char>
    decreases digits,
{
    if digits == 0 {
        seq![]
    } else {
        hex(n / 16, (digits - 1) as nat).push(hex_digit(n % 16))
    }
}

pub(crate) proof fn lemma_hex_len(n: nat, digits: nat)
    ensures
        hex(n, digits).len() == digits,
    decreases digits,
{
    if digits > 0 {
        lemma_hex_len(n / 16, (digits - 1) as nat);
    }
}

fn hex_char(d: u64) -> (r: char)
    requires
        d < 16,
    ensures
        r == hex_digit(d as nat),
{
    if d < 10 {
        (48 + d as u8) as char
    } else {
        (87 + d as u8) as char
    }
}

/// The last hexadecimal digits of a number.
pub(crate) fn hex_of(n: u64, digits: usize) -> (r: String)
    ensures
        r@ == hex(n as nat, digits as nat),
    decreases digits,
{
    if digits == 0 {
        let r = String::new();
        assert(r@ =~= seq![]);
        return r;
    }
    let mut r = hex_of(n / 16, digits - 1);
    r.push(hex_char(n % 16));
    r
}

/// A number is written with as many digits as were asked for, each of them between zero
/// and nine or between a and f.
pub proof fn digits_tell_the_number(n: nat, digits: nat)
    ensures
        hex(n, digits).len() == digits,
        forall|i: int|
            0 <= i < digits ==> '0' <= #[trigger] hex(n, digits)[i] <= '9' || 'a' <= hex(
                n,
                digits,
            )[i] <= 'f',
    decreases digits,
{
    if digits > 0 {
        digits_tell_the_number(n / 16, (digits - 1) as nat);
        let before = hex(n / 16, (digits - 1) as nat);
        assert forall|i: int| 0 <= i < digits implies '0' <= #[trigger] hex(n, digits)[i] <= '9'
            || 'a' <= hex(n, digits)[i] <= 'f' by {
            if i < digits - 1 {
                assert(hex(n, digits)[i] == before[i]);
            }
        }
    }
}

/// The largest number that some digits can tell, and one more.
pub open spec fn room(digits: nat) -> nat
    decreases digits,
{
    if digits == 0 {
        1
    } else {
        16 * room((digits - 1) as nat)
    }
}

proof fn lemma_hex_digits(a: nat, b: nat, digits: nat)
    requires
        a < room(digits),
        b < room(digits),
        hex(a, digits) == hex(b, digits),
    ensures
        a == b,
    decreases digits,
{
    if digits > 0 {
        let x = hex(a, digits);
        let y = hex(b, digits);
        assert(x.drop_last() =~= hex(a / 16, (digits - 1) as nat));
        assert(y.drop_last() =~= hex(b / 16, (digits - 1) as nat));
        assert(x.last() == hex_digit(a % 16));
        assert(y.last() == hex_digit(b % 16));
        lemma_hex_digits(a / 16, b / 16, (digits - 1) as nat);
        assert(a % 16 == b % 16);
    }
}

/// Numbers of up to sixty-four bits that read the same in sixteen digits are the same.
pub proof fn two_numbers_differ_in_a_digit(a: nat, b: nat, digits: nat)
    requires
        digits == 16,
        a <= u64::MAX,
        b <= u64::MAX,
        hex(a, digits) == hex(b, digits),
    ensures
        a == b,
{
    reveal_with_fuel(room, 17);
    lemma_hex_digits(a, b, digits);
}

} // verus!
