//! Verified decimal formatting of unsigned integers, with an injectivity
//! lemma used by the download-destination collision resolver.

use vstd::prelude::*;
use vstd::string::*;

verus! {

/// The character for one decimal digit.
pub open spec fn digit_char(d: int) -> char {
    if d == 0 {
        '0'
    } else if d == 1 {
        '1'
    } else if d == 2 {
        '2'
    } else if d == 3 {
        '3'
    } else if d == 4 {
        '4'
    } else if d == 5 {
        '5'
    } else if d == 6 {
        '6'
    } else if d == 7 {
        '7'
    } else if d == 8 {
        '8'
    } else {
        '9'
    }
}

/// The decimal representation of `n`, without leading zeroes (except for
/// `n == 0` itself).
pub open spec fn dec_repr(n: nat) -> Seq<char>
    decreases n,
{
    if n < 10 {
        seq![digit_char(n as int)]
    } else {
        dec_repr(n / 10).push(digit_char((n % 10) as int))
    }
}

pub proof fn lemma_dec_repr_len(n: nat)
    ensures
        dec_repr(n).len() >= 1,
        n >= 10 ==> dec_repr(n).len() >= 2,
    decreases n,
{
    if n >= 10 {
        lemma_dec_repr_len(n / 10);
    }
}

proof fn lemma_digit_char_injective(a: int, b: int)
    requires
        0 <= a < 10,
        0 <= b < 10,
        digit_char(a) == digit_char(b),
    ensures
        a == b,
{
}

proof fn lemma_push_injective(s: Seq<char>, t: Seq<char>, x: char, y: char)
    requires
        s.push(x) == t.push(y),
    ensures
        s == t,
        x == y,
{
    assert(s.push(x).len() == s.len() + 1);
    assert(t.push(y).len() == t.len() + 1);
    assert(s.len() == t.len());
    assert(x == s.push(x)[s.len() as int]);
    assert(y == t.push(y)[t.len() as int]);
    assert forall|i: int| 0 <= i < s.len() implies s[i] == t[i] by {
        assert(s.push(x)[i] == s[i]);
        assert(t.push(y)[i] == t[i]);
    }
    assert(s =~= t);
}

/// Distinct numbers have distinct decimal representations.
pub proof fn lemma_dec_repr_injective(a: nat, b: nat)
    requires
        dec_repr(a) == dec_repr(b),
    ensures
        a == b,
    decreases a,
{
    lemma_dec_repr_len(a);
    lemma_dec_repr_len(b);
    if a < 10 && b < 10 {
        assert(seq![digit_char(a as int)][0] == digit_char(a as int));
        assert(seq![digit_char(b as int)][0] == digit_char(b as int));
        assert(digit_char(a as int) == digit_char(b as int));
        lemma_digit_char_injective(a as int, b as int);
    } else if a < 10 {
        assert(dec_repr(a).len() == 1);
        assert(dec_repr(b).len() >= 2);
    } else if b < 10 {
        assert(dec_repr(b).len() == 1);
        assert(dec_repr(a).len() >= 2);
    } else {
        lemma_push_injective(
            dec_repr(a / 10),
            dec_repr(b / 10),
            digit_char((a % 10) as int),
            digit_char((b % 10) as int),
        );
        lemma_digit_char_injective((a % 10) as int, (b % 10) as int);
        lemma_dec_repr_injective(a / 10, b / 10);
    }
}

/// The one-character string for one decimal digit.
fn digit_str(d: u64) -> (s: &'static str)
    requires
        d < 10,
    ensures
        s@ =~= seq![digit_char(d as int)],
{
    proof {
        reveal_strlit("0");
        reveal_strlit("1");
        reveal_strlit("2");
        reveal_strlit("3");
        reveal_strlit("4");
        reveal_strlit("5");
        reveal_strlit("6");
        reveal_strlit("7");
        reveal_strlit("8");
        reveal_strlit("9");
    }
    match d {
        0 => "0",
        1 => "1",
        2 => "2",
        3 => "3",
        4 => "4",
        5 => "5",
        6 => "6",
        7 => "7",
        8 => "8",
        _ => "9",
    }
}

/// Formats `n` in decimal.
pub fn u128_to_dec_string(n: u128) -> (s: String)
    ensures
        s@ == dec_repr(n as nat),
    decreases n,
{
    let last = digit_str((n % 10) as u64);
    if n < 10 {
        String::from_str(last)
    } else {
        let mut s = u128_to_dec_string(n / 10);
        s.append(last);
        proof {
            assert(s@ =~= dec_repr((n / 10) as nat).push(digit_char((n % 10) as int)));
        }
        s
    }
}

/// Formats `n` in decimal.
pub fn u64_to_dec_string(n: u64) -> (s: String)
    ensures
        s@ == dec_repr(n as nat),
    decreases n,
{
    let last = digit_str(n % 10);
    if n < 10 {
        String::from_str(last)
    } else {
        let mut s = u64_to_dec_string(n / 10);
        s.append(last);
        proof {
            assert(s@ =~= dec_repr((n / 10) as nat).push(digit_char((n % 10) as int)));
        }
        s
    }
}

} // verus!
