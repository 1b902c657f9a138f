//! Small operations on strings that the rest of the library builds on.

use crate::integer::digit_char;
use crate::integer::digits_text;
use vstd::prelude::*;

verus! {

/// Whether two texts hold the same characters.
pub fn same_text(a: &str, b: &str) -> (r: bool)
    ensures
        r == (a@ == b@),
{
    let left = characters(a);
    let right = characters(b);
    if left.len() != right.len() {
        return false;
    }
    let mut i: usize = 0;
    while i < left.len()
        invariant
            i <= left.len(),
            left.len() == right.len(),
            left@ == a@,
            right@ == b@,
            forall|j: int| 0 <= j < i ==> left[j] == right[j],
        decreases left.len() - i,
    {
        if left[i] != right[i] {
            return false;
        }
        i += 1;
    }
    assert(left@ =~= right@);
    true
}

/// `String::push`: appends one character.
#[verifier::external_body]
pub(crate) fn push_char(s: &mut String, c: char)
    ensures
        final(s)@ == old(s)@.push(c),
{
    s.push(c)
}

/// The characters of a text.
pub fn characters(text: &str) -> (chars: Vec<char>)
    ensures
        chars@ == text@,
{
    let mut chars: Vec<char> = Vec::new();
    for c in it: text.chars()
        invariant
            it.seq() == text@,
            chars@ == it.seq().take(it.index() as int),
    {
        proof {
            assert(it.seq().take(it.index() + 1) =~= it.seq().take(it.index() as int).push(c));
        }
        chars.push(c);
    }
    proof {
        assert(text@.take(text@.len() as int) =~= text@);
    }
    chars
}

/// The text of the characters from `from` up to `to`.
pub(crate) fn text_of(chars: &Vec<char>, from: usize, to: usize) -> (text: String)
    requires
        from <= to <= chars.len(),
    ensures
        text@ == chars@.subrange(from as int, to as int),
{
    let mut text = String::new();
    let mut i: usize = from;
    while i < to
        invariant
            from <= i <= to <= chars.len(),
            text@ == chars@.subrange(from as int, i as int),
        decreases to - i,
    {
        proof {
            assert(chars@.subrange(from as int, i + 1) =~= chars@.subrange(
                from as int,
                i as int,
            ).push(chars[i as int]));
        }
        push_char(&mut text, chars[i]);
        i += 1;
    }
    text
}

/// Whether a character is a decimal digit.
pub open spec fn is_digit(c: char) -> bool {
    '0' <= c && c <= '9'
}

/// Where the run of digits that starts at `from` ends.
pub open spec fn digits_end(text: Seq<char>, from: int) -> int
    decreases text.len() - from,
{
    if 0 <= from < text.len() && is_digit(text[from]) {
        digits_end(text, from + 1)
    } else {
        from
    }
}

/// The number that a run of digits spells.
pub open spec fn digits_value(digits: Seq<char>) -> nat
    decreases digits.len(),
{
    if digits.len() == 0 {
        0
    } else {
        (digits_value(digits.drop_last()) * 10 + (digits.last() as int - '0' as int)) as nat
    }
}

/// Reads the run of digits that starts at `start`: where it ends, and the
/// number that it spells unless that is more than `limit`.
pub(crate) fn read_digits(chars: &Vec<char>, start: usize, limit: u64) -> (r: (usize, Option<u64>))
    requires
        start <= chars.len(),
    ensures
        r.0 == digits_end(chars@, start as int),
        start <= r.0 <= chars.len(),
        match r.1 {
            Some(total) => total == digits_value(chars@.subrange(start as int, r.0 as int))
                && total <= limit,
            None => digits_value(chars@.subrange(start as int, r.0 as int)) > limit,
        },
{
    let mut end: usize = start;
    let mut total: u64 = 0;
    let mut beyond = false;
    proof {
        assert(chars@.subrange(start as int, start as int) =~= Seq::<char>::empty());
    }
    while end < chars.len() && '0' <= chars[end] && chars[end] <= '9'
        invariant
            start <= end <= chars.len(),
            digits_end(chars@, start as int) == digits_end(chars@, end as int),
            !beyond ==> total == digits_value(chars@.subrange(start as int, end as int)) && total
                <= limit,
            beyond ==> digits_value(chars@.subrange(start as int, end as int)) > limit,
        decreases chars.len() - end,
    {
        let digit = (chars[end] as u32 - '0' as u32) as u64;
        proof {
            assert(chars@.subrange(start as int, end + 1).drop_last() =~= chars@.subrange(
                start as int,
                end as int,
            ));
        }
        if !beyond {
            if digit > limit || total > (limit - digit) / 10 {
                beyond = true;
            } else {
                total = total * 10 + digit;
            }
        }
        end += 1;
    }
    if beyond {
        (end, None)
    } else {
        (end, Some(total))
    }
}

/// The decimal digits of a number.
pub fn natural_text(n: u64) -> (text: String)
    ensures
        text@ == digits_text(n as nat),
    decreases n,
{
    if n < 10 {
        let mut text = String::new();
        push_char(&mut text, (('0' as u8) + (n as u8)) as char);
        assert(text@ =~= seq![digit_char(n as int)]);
        text
    } else {
        let mut text = natural_text(n / 10);
        push_char(&mut text, (('0' as u8) + ((n % 10) as u8)) as char);
        text
    }
}

} // verus!
