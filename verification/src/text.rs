//! Helpers for building text one character at a time.

use vstd::prelude::*;
use vstd::string::*;

verus! {

/// Appends one character to a string.
///
/// Trusted: this is `String::push` of the standard library, which is
/// documented to append the given character to the end of the string.
#[verifier::external_body]
pub(crate) fn push_char(out: &mut String, c: char)
    ensures
        final(out)@ == old(out)@.push(c),
{
    out.push(c)
}

/// The characters of a string, in order.
pub fn to_chars(input: &str) -> (chars: Vec<char>)
    ensures
        chars@ == input@,
{
    let len: usize = input.unicode_len();
    let mut chars: Vec<char> = Vec::new();
    let mut i: usize = 0;
    while i < len
        invariant
            len == input@.len(),
            i <= len,
            chars@ == input@.subrange(0, i as int),
        decreases len - i,
    {
        chars.push(input.get_char(i));
        assert(chars@ == input@.subrange(0, i + 1));
        i += 1;
    }
    assert(input@.subrange(0, len as int) == input@);
    chars
}

/// The string that holds the given characters.
pub fn from_chars(chars: &Vec<char>) -> (text: String)
    ensures
        text@ == chars@,
{
    let mut text: String = String::new();
    let mut i: usize = 0;
    while i < chars.len()
        invariant
            i <= chars.len(),
            text@ == chars@.subrange(0, i as int),
        decreases chars.len() - i,
    {
        push_char(&mut text, chars[i]);
        assert(text@ == chars@.subrange(0, i + 1));
        i += 1;
    }
    assert(chars@.subrange(0, chars.len() as int) == chars@);
    text
}

/// The character that stands for a decimal digit.
pub open spec fn digit_char(d: int) -> char {
    if d == 0 {
        '0'
    } else if d == 1 {
        '1'
    } else if d == 2 {
        '2'
    } else if d == 3 {
        '3'
    } else if d == 4 {
        '4'
    } else if d == 5 {
        '5'
    } else if d == 6 {
        '6'
    } else if d == 7 {
        '7'
    } else if d == 8 {
        '8'
    } else {
        '9'
    }
}

/// The decimal digits of a number, most significant first, without
/// leading zeros (zero itself is written `0`).
pub open spec fn decimal(n: nat) -> Seq<char>
    decreases n,
{
    if n < 10 {
        seq![digit_char(n as int)]
    } else {
        decimal(n / 10).push(digit_char((n % 10) as int))
    }
}

/// A run of `count` zeros.
pub open spec fn zeros(count: nat) -> Seq<char> {
    Seq::new(count, |i: int| '0')
}

/// The decimal digits of a number, padded on the left with zeros up to
/// `width` characters. A number with more digits is written in full.
pub open spec fn padded(n: nat, width: nat) -> Seq<char> {
    if decimal(n).len() >= width {
        decimal(n)
    } else {
        zeros((width - decimal(n).len()) as nat) + decimal(n)
    }
}

fn digit_of(d: usize) -> (c: char)
    requires
        d < 10,
    ensures
        c == digit_char(d as int),
{
    if d == 0 {
        '0'
    } else if d == 1 {
        '1'
    } else if d == 2 {
        '2'
    } else if d == 3 {
        '3'
    } else if d == 4 {
        '4'
    } else if d == 5 {
        '5'
    } else if d == 6 {
        '6'
    } else if d == 7 {
        '7'
    } else if d == 8 {
        '8'
    } else {
        '9'
    }
}

/// How many digits the decimal form of a number has.
pub fn decimal_len(n: usize) -> (len: usize)
    ensures
        len == decimal(n as nat).len(),
        1 <= len <= 20,
{
    let mut rest: usize = n;
    let mut len: usize = 1;
    proof {
        lemma_decimal_len_bound(n as nat);
    }
    while rest >= 10
        invariant
            1 <= len,
            decimal(n as nat).len() == decimal(rest as nat).len() + len - 1,
            decimal(n as nat).len() <= 20,
        decreases rest,
    {
        rest = rest / 10;
        len += 1;
    }
    len
}

proof fn lemma_decimal_len_bound(n: nat)
    ensures
        n < 10 ==> decimal(n).len() == 1,
        n < 100 ==> decimal(n).len() <= 2,
        n < 0x1_0000_0000_0000_0000 ==> decimal(n).len() <= 20,
{
    reveal_with_fuel(decimal, 22);
}

/// Appends the decimal form of a number.
pub fn push_decimal(out: &mut String, n: usize)
    ensures
        final(out)@ == old(out)@ + decimal(n as nat),
    decreases n,
{
    if n >= 10 {
        push_decimal(out, n / 10);
    }
    push_char(out, digit_of(n % 10));
    assert(final(out)@ =~= old(out)@ + decimal(n as nat));
}

/// Appends the decimal form of a number, padded on the left with zeros up
/// to `width` characters.
pub fn push_padded(out: &mut String, n: usize, width: usize)
    ensures
        final(out)@ == old(out)@ + padded(n as nat, width as nat),
{
    let len: usize = decimal_len(n);
    let ghost start = out@;
    let mut k: usize = len;
    while k < width
        invariant
            len <= k,
            k <= width || k == len,
            len == decimal(n as nat).len(),
            out@ == start + zeros((k - len) as nat),
        decreases width - k,
    {
        push_char(out, '0');
        k += 1;
        assert(out@ =~= start + zeros((k - len) as nat));
    }
    push_decimal(out, n);
    assert(out@ =~= start + padded(n as nat, width as nat));
}

/// A copy of a list of pairs of strings.
pub fn clone_pairs(list: &Vec<(String, String)>) -> (copy: Vec<(String, String)>)
    ensures
        copy@ == list@,
{
    let mut copy: Vec<(String, String)> = Vec::new();
    let mut i: usize = 0;
    while i < list.len()
        invariant
            i <= list.len(),
            copy@ == list@.subrange(0, i as int),
        decreases list.len() - i,
    {
        copy.push((list[i].0.clone(), list[i].1.clone()));
        assert(copy@ == list@.subrange(0, i + 1));
        i += 1;
    }
    assert(list@.subrange(0, list.len() as int) == list@);
    copy
}

} // verus!
