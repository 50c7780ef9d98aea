//! Positional numerals: writing a number as text and reading it back.
//!
//! Every number has exactly one spelling in a given radix here: no sign, no
//! leading zeros, lower-case letters for the digits above nine. The reader
//! computes the value of any run of digits, so the spelling of a number is
//! always read back as that number.

use vstd::prelude::*;
use vstd::string::*;

verus! {

/// The character that stands for the digit `d`; meaningful for `d < 16`.
pub open spec fn digit_char(d: nat) -> char {
    if d == 0 {
        '0'
    } else if d == 1 {
        '1'
    } else if d == 2 {
        '2'
    } else if d == 3 {
        '3'
    } else if d == 4 {
        '4'
    } else if d == 5 {
        '5'
    } else if d == 6 {
        '6'
    } else if d == 7 {
        '7'
    } else if d == 8 {
        '8'
    } else if d == 9 {
        '9'
    } else if d == 10 {
        'a'
    } else if d == 11 {
        'b'
    } else if d == 12 {
        'c'
    } else if d == 13 {
        'd'
    } else if d == 14 {
        'e'
    } else {
        'f'
    }
}

/// The digit that `c` stands for, or 16 where `c` is no digit at all.
pub open spec fn digit_value(c: char) -> nat {
    if c == '0' {
        0
    } else if c == '1' {
        1
    } else if c == '2' {
        2
    } else if c == '3' {
        3
    } else if c == '4' {
        4
    } else if c == '5' {
        5
    } else if c == '6' {
        6
    } else if c == '7' {
        7
    } else if c == '8' {
        8
    } else if c == '9' {
        9
    } else if c == 'a' {
        10
    } else if c == 'b' {
        11
    } else if c == 'c' {
        12
    } else if c == 'd' {
        13
    } else if c == 'e' {
        14
    } else if c == 'f' {
        15
    } else {
        16
    }
}

/// The spelling of `n` in the given radix, most significant digit first.
pub open spec fn numeral(n: nat, radix: nat) -> Seq<char>
    decreases n,
    when radix >= 2
    via numeral_terminates
{
    if n < radix {
        seq![digit_char(n)]
    } else {
        numeral(n / radix, radix).push(digit_char(n % radix))
    }
}

#[via_fn]
proof fn numeral_terminates(n: nat, radix: nat) {
    if n >= radix {
        vstd::arithmetic::div_mod::lemma_div_decreases(n as int, radix as int);
        vstd::arithmetic::div_mod::lemma_div_pos_is_pos(n as int, radix as int);
    }
}

/// The spelling of `n` in radix ten.
pub open spec fn decimal_text(n: nat) -> Seq<char> {
    numeral(n, 10)
}

/// Whether every character of `s` is a digit of the given radix.
pub open spec fn all_digits(s: Seq<char>, radix: nat) -> bool {
    forall|i: int| 0 <= i < s.len() ==> digit_value(#[trigger] s[i]) < radix
}

/// The number that a run of digits spells; the empty run spells zero.
pub open spec fn digits_value(s: Seq<char>, radix: nat) -> nat
    decreases s.len(),
{
    if s.len() == 0 {
        0
    } else {
        digits_value(s.drop_last(), radix) * radix + digit_value(s.last())
    }
}

/// What reading `s` as a number gives: its value where `s` is a non-empty
/// run of digits whose value fits in 64 bits, nothing otherwise.
pub open spec fn read_numeral(s: Seq<char>, radix: nat) -> Option<u64> {
    if s.len() > 0 && all_digits(s, radix) && digits_value(s, radix) <= u64::MAX {
        Some(digits_value(s, radix) as u64)
    } else {
        None
    }
}

/// A digit and its character name each other.
pub proof fn lemma_digit_char_value(d: nat)
    requires
        d < 16,
    ensures
        digit_value(digit_char(d)) == d,
{
}

/// The spelling of a number is a non-empty run of digits that spells it.
pub proof fn lemma_numeral_value(n: nat, radix: nat)
    requires
        2 <= radix <= 16,
    ensures
        numeral(n, radix).len() > 0,
        all_digits(numeral(n, radix), radix),
        digits_value(numeral(n, radix), radix) == n,
    decreases n,
{
    let text = numeral(n, radix);
    if n < radix {
        lemma_digit_char_value(n);
        assert(text.drop_last() =~= Seq::<char>::empty());
        assert(digits_value(text.drop_last(), radix) == 0);
        assert(digits_value(text, radix) == 0 * radix + n);
    } else {
        let high = n / radix;
        let low = n % radix;
        vstd::arithmetic::div_mod::lemma_div_decreases(n as int, radix as int);
        vstd::arithmetic::div_mod::lemma_div_pos_is_pos(n as int, radix as int);
        vstd::arithmetic::div_mod::lemma_mod_pos_bound(n as int, radix as int);
        vstd::arithmetic::div_mod::lemma_fundamental_div_mod(n as int, radix as int);
        lemma_numeral_value(high, radix);
        lemma_digit_char_value(low);
        assert(text.drop_last() =~= numeral(high, radix));
        assert(text.last() == digit_char(low));
        assert(high * radix == radix * high) by (nonlinear_arith);
        assert forall|i: int| 0 <= i < text.len() implies digit_value(#[trigger] text[i])
            < radix by {
            if i < text.len() - 1 {
                assert(text[i] == numeral(high, radix)[i]);
            }
        }
    }
}

/// A run of digits spells at least what any of its prefixes spells.
pub proof fn lemma_prefix_value_le(s: Seq<char>, k: int, radix: nat)
    requires
        0 <= k <= s.len(),
        radix >= 1,
    ensures
        digits_value(s.take(k), radix) <= digits_value(s, radix),
    decreases s.len(),
{
    if k == s.len() {
        assert(s.take(k) =~= s);
    } else {
        let shorter = s.drop_last();
        lemma_prefix_value_le(shorter, k, radix);
        assert(shorter.take(k) =~= s.take(k));
        let v = digits_value(shorter, radix);
        assert(v * radix >= v) by (nonlinear_arith)
            requires
                radix >= 1,
                v >= 0,
        ;
    }
}

/// The one-character text of a digit.
fn digit_str(d: u64) -> (r: &'static str)
    requires
        d < 16,
    ensures
        r@ == seq![digit_char(d as nat)],
{
    proof {
        reveal_strlit("0");
        reveal_strlit("1");
        reveal_strlit("2");
        reveal_strlit("3");
        reveal_strlit("4");
        reveal_strlit("5");
        reveal_strlit("6");
        reveal_strlit("7");
        reveal_strlit("8");
        reveal_strlit("9");
        reveal_strlit("a");
        reveal_strlit("b");
        reveal_strlit("c");
        reveal_strlit("d");
        reveal_strlit("e");
        reveal_strlit("f");
    }
    let r = if d == 0 {
        "0"
    } else if d == 1 {
        "1"
    } else if d == 2 {
        "2"
    } else if d == 3 {
        "3"
    } else if d == 4 {
        "4"
    } else if d == 5 {
        "5"
    } else if d == 6 {
        "6"
    } else if d == 7 {
        "7"
    } else if d == 8 {
        "8"
    } else if d == 9 {
        "9"
    } else if d == 10 {
        "a"
    } else if d == 11 {
        "b"
    } else if d == 12 {
        "c"
    } else if d == 13 {
        "d"
    } else if d == 14 {
        "e"
    } else {
        "f"
    };
    assert(r@ =~= seq![digit_char(d as nat)]);
    r
}

/// The digit that `c` stands for, or 16 where it stands for none.
fn digit_of(c: char) -> (d: u64)
    ensures
        d == digit_value(c),
{
    if c == '0' {
        0
    } else if c == '1' {
        1
    } else if c == '2' {
        2
    } else if c == '3' {
        3
    } else if c == '4' {
        4
    } else if c == '5' {
        5
    } else if c == '6' {
        6
    } else if c == '7' {
        7
    } else if c == '8' {
        8
    } else if c == '9' {
        9
    } else if c == 'a' {
        10
    } else if c == 'b' {
        11
    } else if c == 'c' {
        12
    } else if c == 'd' {
        13
    } else if c == 'e' {
        14
    } else if c == 'f' {
        15
    } else {
        16
    }
}

/// Appends the spelling of `n` in the given radix to `out`.
pub fn push_numeral(out: &mut String, n: u64, radix: u64)
    requires
        2 <= radix <= 16,
    ensures
        final(out)@ == old(out)@ + numeral(n as nat, radix as nat),
    decreases n,
{
    if n < radix {
        out.append(digit_str(n));
    } else {
        proof {
            vstd::arithmetic::div_mod::lemma_div_decreases(n as int, radix as int);
        }
        push_numeral(out, n / radix, radix);
        out.append(digit_str(n % radix));
        assert(final(out)@ =~= old(out)@ + numeral(n as nat, radix as nat));
    }
}

/// The spelling of `n` in radix ten.
pub fn decimal(n: u64) -> (r: String)
    ensures
        r@ == decimal_text(n as nat),
{
    let mut r = String::new();
    push_numeral(&mut r, n, 10);
    assert(r@ =~= decimal_text(n as nat));
    r
}

/// Reads the characters of `text` from `from` up to `to` as one number in
/// the given radix.
pub fn parse_numeral(text: &Vec<char>, from: usize, to: usize, radix: u64) -> (r: Option<u64>)
    requires
        from <= to <= text.len(),
        2 <= radix <= 16,
    ensures
        r == read_numeral(text@.subrange(from as int, to as int), radix as nat),
{
    let ghost field = text@.subrange(from as int, to as int);
    if from == to {
        return None;
    }
    let mut value: u64 = 0;
    let mut at: usize = from;
    while at < to
        invariant
            from <= at <= to <= text.len(),
            2 <= radix <= 16,
            field == text@.subrange(from as int, to as int),
            all_digits(field.take(at - from), radix as nat),
            value == digits_value(field.take(at - from), radix as nat),
        decreases to - at,
    {
        let digit = digit_of(text[at]);
        let ghost seen = field.take(at - from + 1);
        proof {
            assert(seen.drop_last() =~= field.take(at - from));
            assert(seen.last() == text@[at as int]);
            assert(field[at - from] == text@[at as int]);
        }
        if digit >= radix {
            return None;
        }
        let grown = match value.checked_mul(radix) {
            Some(shifted) => shifted.checked_add(digit),
            None => None,
        };
        match grown {
            Some(next) => {
                value = next;
            },
            None => {
                proof {
                    assert(digits_value(seen, radix as nat) > u64::MAX);
                    lemma_prefix_value_le(field, at - from + 1, radix as nat);
                }
                return None;
            },
        }
        proof {
            assert forall|i: int| 0 <= i < seen.len() implies digit_value(#[trigger] seen[i])
                < radix by {
                if i < seen.len() - 1 {
                    assert(seen[i] == field.take(at - from)[i]);
                }
            }
        }
        at += 1;
    }
    assert(field.take(at - from) =~= field);
    Some(value)
}

} // verus!
