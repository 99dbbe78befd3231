//! Reading a pair such as `400x600` from a command-line argument.

use vstd::prelude::*;

verus! {

/// Place of the first `c` in `s`, or the length of `s` if it holds none.
pub open spec fn first_index(s: Seq<char>, c: char) -> int
    decreases s.len(),
{
    if s.len() == 0 {
        0
    } else if s[0] == c {
        0
    } else {
        1 + first_index(s.skip(1), c)
    }
}

/// What stands before and after the first `separator` in `s`, if there is
/// one.
pub open spec fn split_pair_spec(s: Seq<char>, separator: char) -> Option<(Seq<char>, Seq<char>)> {
    let at = first_index(s, separator);
    if at < s.len() {
        Some((s.take(at), s.skip(at + 1)))
    } else {
        None
    }
}

/// Whether `c` is one of the decimal digits `0` to `9`.
pub open spec fn is_digit(c: char) -> bool {
    '0' as u32 <= c as u32 <= '9' as u32
}

/// The number that a run of decimal digits denotes, most significant digit
/// first.
pub open spec fn digits_value(digits: Seq<char>) -> nat
    decreases digits.len(),
{
    if digits.len() == 0 {
        0
    } else {
        (10 * digits_value(digits.drop_last()) + (digits.last() as u32 - '0' as u32)) as nat
    }
}

/// The digits of a number written in decimal: `s` without a plus sign at its
/// start.
pub open spec fn unsigned_digits(s: Seq<char>) -> Seq<char> {
    if s.len() > 0 && s[0] == '+' {
        s.skip(1)
    } else {
        s
    }
}

/// The `usize` that `s` denotes in decimal: an optional plus sign, then one
/// digit or more and nothing else, for a number that fits.
pub open spec fn parsed_usize_spec(s: Seq<char>) -> Option<usize> {
    let digits = unsigned_digits(s);
    if digits.len() > 0 && (forall|i: int| 0 <= i < digits.len() ==> is_digit(#[trigger] digits[i]))
        && digits_value(digits) <= usize::MAX {
        Some(digits_value(digits) as usize)
    } else {
        None
    }
}

/// What `parse_pair` answers for `s`: both halves of the split, each read as
/// a `usize`, if there is a separator and both halves are numbers.
pub open spec fn parse_pair_spec(s: Seq<char>, separator: char) -> Option<(usize, usize)> {
    match split_pair_spec(s, separator) {
        None => None,
        Some((left, right)) => match (parsed_usize_spec(left), parsed_usize_spec(right)) {
            (Some(l), Some(r)) => Some((l, r)),
            _ => None,
        },
    }
}

/// Splits `s` at its first `separator`: what stands before it and what
/// stands after it, or `None` if `s` holds no `separator`.
pub fn split_pair<'a>(s: &'a str, separator: char) -> (halves: Option<(&'a str, &'a str)>)
    ensures
        match halves {
            None => split_pair_spec(s@, separator) is None,
            Some((left, right)) => split_pair_spec(s@, separator) == Some((left@, right@)),
        },
        halves is None <==> !s@.contains(separator),
        halves matches Some((left, right)) ==> !left@.contains(separator) && s@ == left@.push(
            separator,
        ) + right@,
{
    let length = s.unicode_len();
    let mut at: usize = 0;
    while at < length
        invariant
            length == s@.len(),
            at <= length,
            forall|i: int| 0 <= i < at ==> s@[i] != separator,
        decreases length - at,
    {
        if s.get_char(at) == separator {
            let left = s.substring_char(0, at);
            let right = s.substring_char(at + 1, length);
            proof {
                lemma_first_index(s@, separator, at as int);
                assert(left@ =~= s@.take(at as int));
                assert(right@ =~= s@.skip(at + 1));
                assert(s@ =~= left@.push(separator) + right@);
            }
            return Some((left, right));
        }
        at = at + 1;
    }
    proof {
        lemma_first_index(s@, separator, length as int);
    }
    None
}

/// `std`'s `from_str` for `usize`. It is believed, not proved, that it reads
/// decimal as its documentation says: an optional plus sign followed by
/// digits only, at least one, and an error for anything else or for a number
/// too large for a `usize`.
#[verifier::external_body]
fn parse_usize(s: &str) -> (value: Option<usize>)
    ensures
        value == parsed_usize_spec(s@),
{
    match <usize as std::str::FromStr>::from_str(s) {
        Ok(value) => Some(value),
        Err(_) => None,
    }
}

/// The two values of a pair whose halves were read one by one: both, if both
/// were read, else nothing.
pub fn pair_of<T, E>(left: Result<T, E>, right: Result<T, E>) -> (pair: Option<(T, T)>)
    ensures
        pair == match (left, right) {
            (Ok(l), Ok(r)) => Some((l, r)),
            _ => None,
        },
{
    match (left, right) {
        (Ok(l), Ok(r)) => Some((l, r)),
        _ => None,
    }
}

/// Reads `s` as two numbers with `separator` between them, as in `400x600`.
pub fn parse_pair(s: &str, separator: char) -> (pair: Option<(usize, usize)>)
    ensures
        pair == parse_pair_spec(s@, separator),
{
    match split_pair(s, separator) {
        None => None,
        Some((left, right)) => match (parse_usize(left), parse_usize(right)) {
            (Some(l), Some(r)) => Some((l, r)),
            _ => None,
        },
    }
}

/// `first_index` is the place `at` if `c` stands there, or `at` is the length
/// of `s`, and `c` stands nowhere before `at`.
pub proof fn lemma_first_index(s: Seq<char>, c: char, at: int)
    requires
        0 <= at <= s.len(),
        forall|i: int| 0 <= i < at ==> s[i] != c,
        at < s.len() ==> s[at] == c,
    ensures
        first_index(s, c) == at,
        at == s.len() <==> !s.contains(c),
    decreases s.len(),
{
    if s.len() > 0 && at > 0 {
        let rest = s.skip(1);
        assert forall|i: int| 0 <= i < at - 1 implies rest[i] != c by {
            assert(rest[i] == s[i + 1]);
        }
        lemma_first_index(rest, c, at - 1);
    }
}

} // verus!
