//! Character-level helpers shared by the rule engine: conversion between
//! strings and character vectors, substring search and replacement, decimal
//! numbers and splitting.

use vstd::prelude::*;

verus! {

/// The characters of `s`, in order.
pub fn chars_of(s: &str) -> (v: Vec<char>)
    ensures
        v@ == s@,
{
    let mut v: Vec<char> = Vec::new();
    for c in it: s.chars()
        invariant
            v@ == it.seq().take(it.index() as int),
    {
        v.push(c);
    }
    v
}

/// `String::from_iter` over the characters of `v`: the string made of
/// exactly those characters, in order.
#[verifier::external_body]
pub(crate) fn string_of(v: &Vec<char>) -> (s: String)
    ensures
        s@ == v@,
{
    v.iter().collect()
}

/// Whether two strings hold the same characters.
pub fn same_text(a: &str, b: &str) -> (r: bool)
    ensures
        r == (a@ == b@),
{
    let x = a.to_owned();
    let y = b.to_owned();
    x == y
}

/// `key` stands in `text` at position `pos`.
pub open spec fn occurs_at(text: Seq<char>, pos: int, key: Seq<char>) -> bool {
    &&& 0 <= pos
    &&& pos + key.len() <= text.len()
    &&& text.subrange(pos, pos + key.len()) == key
}

/// Decides `occurs_at`.
pub fn matches_at(text: &Vec<char>, pos: usize, key: &Vec<char>) -> (r: bool)
    ensures
        r == occurs_at(text@, pos as int, key@),
{
    if pos > text.len() || key.len() > text.len() - pos {
        return false;
    }
    let mut i: usize = 0;
    while i < key.len()
        invariant
            i <= key.len(),
            pos + key.len() <= text.len(),
            text@.subrange(pos as int, pos + i) == key@.take(i as int),
        decreases key.len() - i,
    {
        if text[pos + i] != key[i] {
            assert(text@.subrange(pos as int, pos + key.len())[i as int] != key@[i as int]);
            return false;
        }
        assert(text@.subrange(pos as int, pos + i + 1) == text@.subrange(
            pos as int,
            pos + i,
        ).push(text@[pos + i]));
        assert(key@.take(i + 1) == key@.take(i as int).push(key@[i as int]));
        i += 1;
    }
    assert(key@.take(key.len() as int) == key@);
    true
}

/// `text` with every occurrence of `key` replaced by `value`. Occurrences are
/// found from left to right and do not overlap; what was put in is not
/// searched again. An empty key occurs nowhere.
pub open spec fn replaced(text: Seq<char>, key: Seq<char>, value: Seq<char>) -> Seq<char>
    decreases text.len(),
{
    if key.len() == 0 || text.len() == 0 {
        text
    } else if occurs_at(text, 0, key) {
        value + replaced(text.skip(key.len() as int), key, value)
    } else {
        seq![text[0]] + replaced(text.skip(1), key, value)
    }
}

/// Computes `replaced`.
pub fn replace_all(text: &Vec<char>, key: &Vec<char>, value: &Vec<char>) -> (out: Vec<char>)
    ensures
        out@ == replaced(text@, key@, value@),
{
    let mut out: Vec<char> = Vec::new();
    let mut pos: usize = 0;
    if key.len() == 0 {
        while pos < text.len()
            invariant
                pos <= text.len(),
                out@ == text@.take(pos as int),
            decreases text.len() - pos,
        {
            out.push(text[pos]);
            assert(text@.take(pos + 1) == text@.take(pos as int).push(text@[pos as int]));
            pos += 1;
        }
        assert(text@.take(text.len() as int) == text@);
        return out;
    }
    assert(text@.skip(0) == text@);
    assert(out@ + replaced(text@, key@, value@) == replaced(text@, key@, value@));
    while pos < text.len()
        invariant
            pos <= text.len(),
            key.len() > 0,
            out@ + replaced(text@.skip(pos as int), key@, value@) == replaced(
                text@,
                key@,
                value@,
            ),
        decreases text.len() - pos,
    {
        let ghost rest = text@.skip(pos as int);
        let ghost before = out@;
        if matches_at(text, pos, key) {
            assert(occurs_at(rest, 0, key@)) by {
                assert(rest.subrange(0, key.len() as int) == text@.subrange(
                    pos as int,
                    pos + key.len(),
                ));
            }
            let mut j: usize = 0;
            while j < value.len()
                invariant
                    j <= value.len(),
                    out@ == before + value@.take(j as int),
                decreases value.len() - j,
            {
                out.push(value[j]);
                assert(value@.take(j + 1) == value@.take(j as int).push(value@[j as int]));
                j += 1;
            }
            assert(value@.take(value.len() as int) == value@);
            assert(rest.skip(key.len() as int) == text@.skip(pos + key.len()));
            pos += key.len();
            assert(out@ + replaced(text@.skip(pos as int), key@, value@) == before + (value@
                + replaced(rest.skip(key.len() as int), key@, value@)));
        } else {
            assert(!occurs_at(rest, 0, key@)) by {
                if pos + key.len() <= text.len() {
                    assert(rest.subrange(0, key.len() as int) == text@.subrange(
                        pos as int,
                        pos + key.len(),
                    ));
                }
            }
            out.push(text[pos]);
            assert(rest.skip(1) == text@.skip(pos + 1));
            pos += 1;
            assert(out@ + replaced(text@.skip(pos as int), key@, value@) == before + (seq![
                rest[0],
            ] + replaced(rest.skip(1), key@, value@)));
        }
    }
    assert(text@.skip(text.len() as int).len() == 0);
    assert(out@ + Seq::<char>::empty() == out@);
    out
}

/// A text in which the key occurs nowhere is left as it is.
pub proof fn lemma_replaced_without_occurrence(text: Seq<char>, key: Seq<char>, value: Seq<char>)
    requires
        forall|pos: int| !occurs_at(text, pos, key),
    ensures
        replaced(text, key, value) == text,
    decreases text.len(),
{
    if key.len() > 0 && text.len() > 0 {
        assert(!occurs_at(text, 0, key));
        let rest = text.skip(1);
        assert forall|pos: int| !occurs_at(rest, pos, key) by {
            if occurs_at(rest, pos, key) {
                assert(rest.subrange(pos, pos + key.len()) == text.subrange(
                    pos + 1,
                    pos + 1 + key.len(),
                ));
                assert(occurs_at(text, pos + 1, key));
            }
        }
        lemma_replaced_without_occurrence(rest, key, value);
        assert(seq![text[0]] + rest == text);
    }
}

/// A text that is the key is replaced by the value.
pub proof fn lemma_replaced_whole(key: Seq<char>, value: Seq<char>)
    requires
        key.len() > 0,
    ensures
        replaced(key, key, value) == value,
{
    assert(key.subrange(0, key.len() as int) == key);
    assert(occurs_at(key, 0, key));
    assert(key.skip(key.len() as int).len() == 0);
    assert(replaced(key.skip(key.len() as int), key, value) == key.skip(key.len() as int));
    assert(value + key.skip(key.len() as int) == value);
}

/// The character of a decimal digit.
pub open spec fn digit(d: nat) -> char {
    if d == 0 {
        '0'
    } else if d == 1 {
        '1'
    } else if d == 2 {
        '2'
    } else if d == 3 {
        '3'
    } else if d == 4 {
        '4'
    } else if d == 5 {
        '5'
    } else if d == 6 {
        '6'
    } else if d == 7 {
        '7'
    } else if d == 8 {
        '8'
    } else {
        '9'
    }
}

/// `n` written in decimal, without leading zeros.
pub open spec fn decimal(n: nat) -> Seq<char>
    decreases n,
{
    if n < 10 {
        seq![digit(n)]
    } else {
        decimal(n / 10).push(digit(n % 10))
    }
}

fn digit_of(d: usize) -> (c: char)
    requires
        d < 10,
    ensures
        c == digit(d as nat),
{
    if d == 0 {
        '0'
    } else if d == 1 {
        '1'
    } else if d == 2 {
        '2'
    } else if d == 3 {
        '3'
    } else if d == 4 {
        '4'
    } else if d == 5 {
        '5'
    } else if d == 6 {
        '6'
    } else if d == 7 {
        '7'
    } else if d == 8 {
        '8'
    } else {
        '9'
    }
}

/// Computes `decimal`.
pub fn decimal_of(n: usize) -> (v: Vec<char>)
    ensures
        v@ == decimal(n as nat),
    decreases n,
{
    if n < 10 {
        let mut v: Vec<char> = Vec::new();
        v.push(digit_of(n));
        v
    } else {
        let mut v = decimal_of(n / 10);
        v.push(digit_of(n % 10));
        v
    }
}

/// `text` cut at every `sep`: the pieces between the separators, in order.
/// A text without separator is one piece; a separator at either end leaves
/// an empty piece there.
pub open spec fn split_by(text: Seq<char>, sep: char) -> Seq<Seq<char>>
    decreases text.len(),
{
    if text.len() == 0 {
        seq![Seq::empty()]
    } else {
        let head = split_by(text.drop_last(), sep);
        if text.last() == sep {
            head.push(Seq::empty())
        } else {
            head.drop_last().push(head.last().push(text.last()))
        }
    }
}

/// The texts that a list of character vectors holds.
pub open spec fn pieces(parts: Seq<Vec<char>>) -> Seq<Seq<char>> {
    parts.map_values(|p: Vec<char>| p@)
}

/// Computes `split_by`.
pub fn split(text: &Vec<char>, sep: char) -> (parts: Vec<Vec<char>>)
    ensures
        pieces(parts@) == split_by(text@, sep),
        parts@.len() > 0,
{
    let mut done: Vec<Vec<char>> = Vec::new();
    let mut current: Vec<char> = Vec::new();
    let mut i: usize = 0;
    assert(pieces(done@).push(current@) == split_by(text@.take(0), sep));
    while i < text.len()
        invariant
            i <= text.len(),
            pieces(done@).push(current@) == split_by(text@.take(i as int), sep),
        decreases text.len() - i,
    {
        let ghost before = pieces(done@);
        let ghost open = current@;
        let c = text[i];
        assert(text@.take(i + 1).drop_last() == text@.take(i as int));
        assert(text@.take(i + 1).last() == c);
        if c == sep {
            done.push(current);
            current = Vec::new();
            assert(pieces(done@) == before.push(open));
        } else {
            current.push(c);
            assert(before.push(open).drop_last() == before);
            assert(before.push(open).last() == open);
        }
        i += 1;
    }
    assert(text@.take(text.len() as int) == text@);
    let ghost before = pieces(done@);
    let ghost open = current@;
    done.push(current);
    assert(pieces(done@) == before.push(open));
    done
}

/// The position of the first `c` in `text`, or the length of `text` where it
/// holds none.
pub open spec fn first_index(text: Seq<char>, c: char) -> int
    decreases text.len(),
{
    if text.len() == 0 || text[0] == c {
        0
    } else {
        1 + first_index(text.skip(1), c)
    }
}

/// A position before which no `c` stands, and which holds one or is the end,
/// is the first index.
pub proof fn lemma_first_index(text: Seq<char>, c: char, at: int)
    requires
        0 <= at <= text.len(),
        forall|k: int| 0 <= k < at ==> text[k] != c,
        at < text.len() ==> text[at] == c,
    ensures
        first_index(text, c) == at,
    decreases text.len(),
{
    if text.len() > 0 && text[0] != c {
        let rest = text.skip(1);
        assert forall|k: int| 0 <= k < at - 1 implies rest[k] != c by {
            assert(rest[k] == text[k + 1]);
        }
        lemma_first_index(rest, c, at - 1);
    }
}

/// Computes `first_index`.
pub fn find_char(text: &Vec<char>, c: char) -> (at: usize)
    ensures
        at == first_index(text@, c),
        at <= text.len(),
{
    let mut i: usize = 0;
    while i < text.len() && text[i] != c
        invariant
            i <= text.len(),
            forall|k: int| 0 <= k < i ==> text@[k] != c,
        decreases text.len() - i,
    {
        i += 1;
    }
    proof {
        lemma_first_index(text@, c, i as int);
    }
    i
}

/// The part of `text` from `from` up to `to`.
pub fn slice_of(text: &Vec<char>, from: usize, to: usize) -> (part: Vec<char>)
    requires
        from <= to <= text.len(),
    ensures
        part@ == text@.subrange(from as int, to as int),
{
    let mut part: Vec<char> = Vec::new();
    let mut i: usize = from;
    while i < to
        invariant
            from <= i <= to,
            to <= text.len(),
            part@ == text@.subrange(from as int, i as int),
        decreases to - i,
    {
        part.push(text[i]);
        assert(text@.subrange(from as int, i + 1) == text@.subrange(from as int, i as int).push(
            text@[i as int],
        ));
        i += 1;
    }
    part
}

/// White space, as Unicode lists it.
pub open spec fn is_space(c: char) -> bool {
    ||| '\u{9}' <= c <= '\u{d}'
    ||| c == ' '
    ||| c == '\u{85}'
    ||| c == '\u{a0}'
    ||| c == '\u{1680}'
    ||| '\u{2000}' <= c <= '\u{200a}'
    ||| c == '\u{2028}'
    ||| c == '\u{2029}'
    ||| c == '\u{202f}'
    ||| c == '\u{205f}'
    ||| c == '\u{3000}'
}

/// Decides `is_space`.
pub fn space(c: char) -> (r: bool)
    ensures
        r == is_space(c),
{
    ('\u{9}' <= c && c <= '\u{d}') || c == ' ' || c == '\u{85}' || c == '\u{a0}' || c
        == '\u{1680}' || ('\u{2000}' <= c && c <= '\u{200a}') || c == '\u{2028}' || c
        == '\u{2029}' || c == '\u{202f}' || c == '\u{205f}' || c == '\u{3000}'
}

/// `text` without the white space at its start.
pub open spec fn trim_start(text: Seq<char>) -> Seq<char>
    decreases text.len(),
{
    if text.len() > 0 && is_space(text[0]) {
        trim_start(text.skip(1))
    } else {
        text
    }
}

/// `text` without the white space at its end.
pub open spec fn trim_end(text: Seq<char>) -> Seq<char>
    decreases text.len(),
{
    if text.len() > 0 && is_space(text.last()) {
        trim_end(text.drop_last())
    } else {
        text
    }
}

/// `text` without the white space at its start and at its end.
pub open spec fn trimmed(text: Seq<char>) -> Seq<char> {
    trim_end(trim_start(text))
}

/// Computes `trimmed`.
pub fn trim(text: &Vec<char>) -> (out: Vec<char>)
    ensures
        out@ == trimmed(text@),
{
    let mut start: usize = 0;
    assert(text@.skip(0) == text@);
    while start < text.len() && space(text[start])
        invariant
            start <= text.len(),
            trim_start(text@) == trim_start(text@.skip(start as int)),
        decreases text.len() - start,
    {
        assert(text@.skip(start as int).skip(1) == text@.skip(start + 1));
        start += 1;
    }
    let ghost body = text@.skip(start as int);
    assert(trim_start(text@) == body);
    let mut end: usize = text.len();
    assert(body.take(body.len() as int) == body);
    while end > start && space(text[end - 1])
        invariant
            start <= end <= text.len(),
            body == text@.skip(start as int),
            trim_end(body) == trim_end(body.take(end - start)),
        decreases end,
    {
        assert(body.take(end - start).last() == text@[end - 1]);
        assert(body.take(end - start).drop_last() == body.take(end - start - 1));
        end -= 1;
    }
    assert(trim_end(body) == body.take(end - start)) by {
        if end > start {
            assert(body.take(end - start).last() == text@[end - 1]);
        }
    }
    assert(body.take(end - start) == text@.subrange(start as int, end as int));
    slice_of(text, start, end)
}

/// The value of a decimal digit.
pub open spec fn digit_value(c: char) -> Option<nat> {
    if c == '0' {
        Some(0)
    } else if c == '1' {
        Some(1)
    } else if c == '2' {
        Some(2)
    } else if c == '3' {
        Some(3)
    } else if c == '4' {
        Some(4)
    } else if c == '5' {
        Some(5)
    } else if c == '6' {
        Some(6)
    } else if c == '7' {
        Some(7)
    } else if c == '8' {
        Some(8)
    } else if c == '9' {
        Some(9)
    } else {
        None
    }
}

fn value_of_digit(c: char) -> (r: Option<u64>)
    ensures
        match r {
            Some(d) => digit_value(c) == Some(d as nat) && d < 10,
            None => digit_value(c) is None,
        },
{
    if c == '0' {
        Some(0)
    } else if c == '1' {
        Some(1)
    } else if c == '2' {
        Some(2)
    } else if c == '3' {
        Some(3)
    } else if c == '4' {
        Some(4)
    } else if c == '5' {
        Some(5)
    } else if c == '6' {
        Some(6)
    } else if c == '7' {
        Some(7)
    } else if c == '8' {
        Some(8)
    } else if c == '9' {
        Some(9)
    } else {
        None
    }
}

/// The number that a run of decimal digits stands for; none where a
/// character is no digit. The empty run stands for zero.
pub open spec fn digits_value(text: Seq<char>) -> Option<nat>
    decreases text.len(),
{
    if text.len() == 0 {
        Some(0)
    } else {
        match (digits_value(text.drop_last()), digit_value(text.last())) {
            (Some(high), Some(low)) => Some(high * 10 + low),
            _ => None,
        }
    }
}

/// A run of digits stands for at least what any of its beginnings stands
/// for, and has no value where a beginning has none.
pub proof fn lemma_digits_grow(text: Seq<char>, upto: int)
    requires
        0 <= upto <= text.len(),
    ensures
        digits_value(text.take(upto)) is None ==> digits_value(text) is None,
        digits_value(text) matches Some(whole) ==> digits_value(text.take(upto)) matches Some(part)
            && part <= whole,
    decreases text.len() - upto,
{
    if upto == text.len() {
        assert(text.take(upto) == text);
    } else {
        assert(text.drop_last().take(upto) == text.take(upto));
        lemma_digits_grow(text.drop_last(), upto);
    }
}

/// Every character of a number written in decimal is a digit, and the digits
/// stand for the number.
pub proof fn lemma_decimal_value(n: nat)
    ensures
        decimal(n).len() > 0,
        digits_value(decimal(n)) == Some(n),
        forall|i: int| 0 <= i < decimal(n).len() ==> digit_value(#[trigger] decimal(n)[i]) is Some,
    decreases n,
{
    if n < 10 {
        assert(decimal(n).drop_last().len() == 0);
        assert(digits_value(decimal(n).drop_last()) == Some(0nat));
        assert(decimal(n).last() == digit(n));
        assert(digit_value(digit(n)) == Some(n));
        assert(digits_value(decimal(n)) == Some((0 * 10 + n) as nat));
    } else {
        lemma_decimal_value(n / 10);
        let high = decimal(n / 10);
        assert(decimal(n).drop_last() == high);
        assert(decimal(n).last() == digit(n % 10));
        assert(digit_value(digit(n % 10)) == Some(n % 10));
        assert(digits_value(decimal(n)) == Some(((n / 10) * 10 + n % 10) as nat));
        assert forall|i: int| 0 <= i < decimal(n).len() implies digit_value(
            #[trigger] decimal(n)[i],
        ) is Some by {
            if i < high.len() {
                assert(decimal(n)[i] == high[i]);
            }
        }
    }
}

/// A greater number is not written with fewer digits.
pub proof fn lemma_decimal_length(small: nat, great: nat)
    requires
        small <= great,
    ensures
        decimal(small).len() <= decimal(great).len(),
    decreases great,
{
    lemma_decimal_value(small);
    if great >= 10 {
        if small >= 10 {
            lemma_decimal_length(small / 10, great / 10);
        } else {
            lemma_decimal_value(great / 10);
        }
    }
}

/// The number that `text` stands for as an unsigned 32-bit number in
/// decimal: at least one digit, after at most one plus sign, and a value
/// that fits. There is none for any other text.
pub open spec fn parsed_u32(text: Seq<char>) -> Option<u32> {
    let body = if text.len() > 0 && text[0] == '+' {
        text.skip(1)
    } else {
        text
    };
    if body.len() == 0 {
        None
    } else {
        match digits_value(body) {
            Some(value) => if value <= u32::MAX {
                Some(value as u32)
            } else {
                None
            },
            None => None,
        }
    }
}

/// Computes `parsed_u32`.
pub fn parse_u32(text: &Vec<char>) -> (r: Option<u32>)
    ensures
        r == parsed_u32(text@),
{
    let start: usize = if text.len() > 0 && text[0] == '+' {
        1
    } else {
        0
    };
    if start == text.len() {
        return None;
    }
    let ghost body = text@.skip(start as int);
    let mut value: u64 = 0;
    let mut i: usize = start;
    assert(body.take(0) == Seq::<char>::empty());
    assert(text@.skip(0) == text@);
    assert(parsed_u32(text@) == match digits_value(body) {
        Some(whole) => if whole <= u32::MAX {
            Some(whole as u32)
        } else {
            None
        },
        None => None,
    });
    while i < text.len()
        invariant
            start <= i <= text.len(),
            body == text@.skip(start as int),
            digits_value(body.take(i - start)) == Some(value as nat),
            value <= u32::MAX,
            parsed_u32(text@) == match digits_value(body) {
                Some(whole) => if whole <= u32::MAX {
                    Some(whole as u32)
                } else {
                    None
                },
                None => None,
            },
        decreases text.len() - i,
    {
        assert(body.take(i - start + 1).drop_last() == body.take(i - start));
        assert(body.take(i - start + 1).last() == text@[i as int]);
        match value_of_digit(text[i]) {
            Some(d) => {
                value = value * 10 + d;
                if value > 0xffff_ffff {
                    proof {
                        lemma_digits_grow(body, i - start + 1);
                    }
                    return None;
                }
            },
            None => {
                proof {
                    lemma_digits_grow(body, i - start + 1);
                }
                return None;
            },
        }
        i += 1;
    }
    assert(body.take(body.len() as int) == body);
    Some(value as u32)
}

} // verus!
