//! Lists of numbers written with a separator between them.
//!
//! Dotted and colon-separated addresses are such lists. The writer puts the
//! spelling of each number down with the separator in between; the reader
//! cuts a text at each separator and reads what stands between two of them
//! as one number.

use vstd::prelude::*;
use vstd::string::*;
use crate::numeral::{
    all_digits, digit_value, lemma_numeral_value, numeral, parse_numeral, push_numeral,
    read_numeral,
};

verus! {

/// Where `sep` first stands in `s`; the length of `s` where it does not occur.
pub open spec fn first_index_of(s: Seq<char>, sep: char) -> int
    decreases s.len(),
{
    if s.len() == 0 || s[0] == sep {
        0
    } else {
        1 + first_index_of(s.drop_first(), sep)
    }
}

/// The numbers of `parts`, each spelled in the given radix, with `sep`
/// between every two of them.
pub open spec fn joined(parts: Seq<u64>, radix: nat, sep: char) -> Seq<char>
    decreases parts.len(),
{
    if parts.len() == 0 {
        Seq::empty()
    } else if parts.len() == 1 {
        numeral(parts[0] as nat, radix)
    } else {
        numeral(parts[0] as nat, radix) + seq![sep] + joined(parts.drop_first(), radix, sep)
    }
}

/// What reading `s` as exactly `count` numbers with `sep` between them
/// gives: the numbers in order, or nothing where `s` is not of that shape.
pub open spec fn read_joined(s: Seq<char>, count: nat, radix: nat, sep: char) -> Option<Seq<u64>>
    decreases count,
{
    let end = first_index_of(s, sep);
    if count == 0 {
        None
    } else if count == 1 {
        if end < s.len() {
            None
        } else {
            match read_numeral(s, radix) {
                Some(v) => Some(seq![v]),
                None => None,
            }
        }
    } else if end >= s.len() {
        None
    } else {
        match read_numeral(s.take(end), radix) {
            Some(v) => match read_joined(s.skip(end + 1), (count - 1) as nat, radix, sep) {
                Some(rest) => Some(seq![v] + rest),
                None => None,
            },
            None => None,
        }
    }
}

/// The numbers that a parsed list holds.
pub open spec fn listed(r: Option<Vec<u64>>) -> Option<Seq<u64>> {
    match r {
        Some(parts) => Some(parts@),
        None => None,
    }
}

/// Whether `c` is a digit of the radix or the separator.
pub open spec fn digit_or(c: char, radix: nat, sep: char) -> bool {
    digit_value(c) < radix || c == sep
}

/// The first separator stands where nothing before it is one.
pub proof fn lemma_first_index(s: Seq<char>, sep: char, k: int)
    requires
        0 <= k <= s.len(),
        forall|j: int| 0 <= j < k ==> s[j] != sep,
        k < s.len() ==> s[k] == sep,
    ensures
        first_index_of(s, sep) == k,
    decreases k,
{
    if k > 0 {
        let rest = s.drop_first();
        assert forall|j: int| 0 <= j < k - 1 implies rest[j] != sep by {
            assert(rest[j] == s[j + 1]);
        }
        lemma_first_index(rest, sep, k - 1);
    }
}

/// In a text that begins with a run of digits followed by the separator,
/// the first separator is the one that follows the run.
pub proof fn lemma_first_index_after_digits(
    head: Seq<char>,
    tail: Seq<char>,
    radix: nat,
    sep: char,
)
    requires
        all_digits(head, radix),
        digit_value(sep) >= radix,
    ensures
        first_index_of(head + seq![sep] + tail, sep) == head.len(),
        first_index_of(head, sep) == head.len(),
{
    let s = head + seq![sep] + tail;
    assert forall|j: int| 0 <= j < head.len() implies s[j] != sep && head[j] != sep by {
        assert(s[j] == head[j]);
        assert(digit_value(head[j]) < radix);
    }
    assert(s[head.len() as int] == sep);
    lemma_first_index(s, sep, head.len() as int);
    lemma_first_index(head, sep, head.len() as int);
}

/// A joined list is read back as the numbers that were joined.
pub proof fn lemma_read_joined(parts: Seq<u64>, radix: nat, sep: char)
    requires
        parts.len() > 0,
        2 <= radix <= 16,
        digit_value(sep) >= radix,
    ensures
        read_joined(joined(parts, radix, sep), parts.len(), radix, sep) == Some(parts),
    decreases parts.len(),
{
    let head = numeral(parts[0] as nat, radix);
    lemma_numeral_value(parts[0] as nat, radix);
    if parts.len() == 1 {
        lemma_first_index_after_digits(head, Seq::empty(), radix, sep);
        assert(seq![parts[0]] =~= parts);
    } else {
        let rest = parts.drop_first();
        let tail = joined(rest, radix, sep);
        let s = head + seq![sep] + tail;
        lemma_first_index_after_digits(head, tail, radix, sep);
        lemma_read_joined(rest, radix, sep);
        assert(s.take(head.len() as int) =~= head);
        assert(s.skip(head.len() as int + 1) =~= tail);
        assert(seq![parts[0]] + rest =~= parts);
    }
}

/// A joined list holds nothing but digits and separators, and is empty
/// only where nothing was joined.
pub proof fn lemma_joined_chars(parts: Seq<u64>, radix: nat, sep: char)
    requires
        2 <= radix <= 16,
    ensures
        forall|i: int|
            0 <= i < joined(parts, radix, sep).len() ==> digit_or(
                #[trigger] joined(parts, radix, sep)[i],
                radix,
                sep,
            ),
        parts.len() > 0 ==> joined(parts, radix, sep).len() > 0,
    decreases parts.len(),
{
    if parts.len() > 0 {
        let head = numeral(parts[0] as nat, radix);
        lemma_numeral_value(parts[0] as nat, radix);
        if parts.len() > 1 {
            lemma_joined_chars(parts.drop_first(), radix, sep);
            let tail = joined(parts.drop_first(), radix, sep);
            let s = joined(parts, radix, sep);
            assert forall|i: int| 0 <= i < s.len() implies digit_or(
                #[trigger] s[i],
                radix,
                sep,
            ) by {
                if i < head.len() {
                    assert(s[i] == head[i]);
                } else if i > head.len() {
                    assert(s[i] == tail[i - head.len() - 1]);
                }
            }
        }
    }
}

/// Where `sep` first stands in `text` at or after `from` and before `to`;
/// `to` where it does not.
pub fn find_separator(text: &Vec<char>, from: usize, to: usize, sep: char) -> (at: usize)
    requires
        from <= to <= text.len(),
    ensures
        from <= at <= to,
        at == from + first_index_of(text@.subrange(from as int, to as int), sep),
{
    let ghost field = text@.subrange(from as int, to as int);
    let mut at: usize = from;
    while at < to && text[at] != sep
        invariant
            from <= at <= to <= text.len(),
            field == text@.subrange(from as int, to as int),
            forall|j: int| 0 <= j < at - from ==> field[j] != sep,
        decreases to - at,
    {
        at += 1;
    }
    proof {
        lemma_first_index(field, sep, at - from);
    }
    at
}

/// Appends the numbers of `parts` to `out`, each spelled in the given
/// radix, with the one-character text `sep` between every two of them.
pub fn push_joined(out: &mut String, parts: &Vec<u64>, radix: u64, sep: &str)
    requires
        2 <= radix <= 16,
        sep@.len() == 1,
    ensures
        final(out)@ == old(out)@ + joined(parts@, radix as nat, sep@[0]),
{
    let ghost whole = old(out)@ + joined(parts@, radix as nat, sep@[0]);
    let mut i: usize = 0;
    assert(parts@.skip(0) =~= parts@);
    while i < parts.len()
        invariant
            i <= parts.len(),
            2 <= radix <= 16,
            sep@.len() == 1,
            whole == out@ + (if i == 0 || i == parts.len() {
                joined(parts@.skip(i as int), radix as nat, sep@[0])
            } else {
                seq![sep@[0]] + joined(parts@.skip(i as int), radix as nat, sep@[0])
            }),
        decreases parts.len() - i,
    {
        let ghost todo = parts@.skip(i as int);
        if i > 0 {
            out.append(sep);
        }
        push_numeral(out, parts[i], radix);
        proof {
            assert(sep@ =~= seq![sep@[0]]);
            assert(todo[0] == parts@[i as int]);
            assert(todo.drop_first() =~= parts@.skip(i + 1));
            let word = numeral(parts@[i as int] as nat, radix as nat);
            let rest = joined(parts@.skip(i + 1), radix as nat, sep@[0]);
            if todo.len() == 1 {
                assert(rest =~= Seq::<char>::empty());
                assert(joined(todo, radix as nat, sep@[0]) == word);
                assert(whole =~= out@ + rest);
            } else {
                assert(joined(todo, radix as nat, sep@[0]) == word + seq![sep@[0]] + rest);
                assert(whole =~= out@ + (seq![sep@[0]] + rest));
            }
        }
        i += 1;
    }
    assert(parts@.skip(i as int) =~= Seq::<u64>::empty());
    assert(whole =~= out@);
}

/// Reads the characters of `text` from `from` up to `to` as exactly `count`
/// numbers in the given radix with `sep` between them.
pub fn parse_joined(
    text: &Vec<char>,
    from: usize,
    to: usize,
    count: usize,
    radix: u64,
    sep: char,
) -> (r: Option<Vec<u64>>)
    requires
        from <= to <= text.len(),
        2 <= radix <= 16,
    ensures
        listed(r) == read_joined(
            text@.subrange(from as int, to as int),
            count as nat,
            radix as nat,
            sep,
        ),
{
    let ghost field = text@.subrange(from as int, to as int);
    let ghost whole = read_joined(field, count as nat, radix as nat, sep);
    if count == 0 {
        return None;
    }
    let mut parts: Vec<u64> = Vec::new();
    let mut at: usize = from;
    let mut left: usize = count;
    assert(text@.subrange(at as int, to as int) =~= field);
    assert(Seq::<u64>::empty() + whole->0 =~= whole->0);
    while left > 1
        invariant
            from <= at <= to <= text.len(),
            2 <= radix <= 16,
            1 <= left <= count,
            whole == read_joined(
                text@.subrange(from as int, to as int),
                count as nat,
                radix as nat,
                sep,
            ),
            whole == match read_joined(
                text@.subrange(at as int, to as int),
                left as nat,
                radix as nat,
                sep,
            ) {
                Some(rest) => Some(parts@ + rest),
                None => None,
            },
        decreases left,
    {
        let ghost tail = text@.subrange(at as int, to as int);
        let end = find_separator(text, at, to, sep);
        if end >= to {
            return None;
        }
        proof {
            assert(tail.take(end - at) =~= text@.subrange(at as int, end as int));
            assert(tail.skip(end - at + 1) =~= text@.subrange(end + 1, to as int));
        }
        match parse_numeral(text, at, end, radix) {
            Some(v) => {
                let ghost before = parts@;
                parts.push(v);
                proof {
                    match read_joined(
                        text@.subrange(end + 1, to as int),
                        (left - 1) as nat,
                        radix as nat,
                        sep,
                    ) {
                        Some(rest) => {
                            assert(before + (seq![v] + rest) =~= parts@ + rest);
                        },
                        None => {},
                    }
                }
            },
            None => {
                return None;
            },
        }
        at = end + 1;
        left -= 1;
    }
    let end = find_separator(text, at, to, sep);
    if end < to {
        return None;
    }
    match parse_numeral(text, at, to, radix) {
        Some(v) => {
            parts.push(v);
            Some(parts)
        },
        None => None,
    }
}

} // verus!
