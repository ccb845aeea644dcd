//! The grammar of the form language: one field to a line.
//!
//! ```text
//! field      := static | email | choose_n | cellphone | choose_any | date | string | name
//! static     := "static(" qstr "," qstr ")"
//! email      := "email(" qstr "," arr(qstr) ")"
//! choose_n   := "choose_n(" uint "," arr(kvp) ")"
//! cellphone  := "cellphone(" qstr ")"
//! choose_any := "choose_any(" arr(kvp) ")"
//! date       := "date(" qstr "," uint "," uint ")"
//! string     := "string(" qstr "," uint ")"
//! name       := "name(" qstr "," uint ")"
//! kvp        := "(" qstr "," qstr ")"
//! arr(X)     := "[" X ("," X)* "]"
//! qstr       := '"' (escaped-char | plain-char)* '"'
//! ```

use vstd::prelude::*;
use vstd::string::*;
use crate::field::{pairs_view, strings_view, FieldSpec, Parameter};
use crate::params::Pair;
use crate::text::{push_char, to_chars};

verus! {

/// Why a line was refused.
#[derive(Debug, Clone, PartialEq)]
pub enum ParseError {
    /// The line, which is no field of the grammar.
    Malformed(String),
}

/// Whether the text holds the character `c` at the position.
pub open spec fn char_at(s: Seq<char>, at: int, c: char) -> bool {
    0 <= at < s.len() && s[at] == c
}

/// Whether the text holds `tag` from the position on.
pub open spec fn tag_at(s: Seq<char>, at: int, tag: Seq<char>) -> bool {
    0 <= at && at + tag.len() <= s.len() && s.subrange(at, at + tag.len()) == tag
}

/// What stands for the character behind a backslash.
pub open spec fn unescape(c: char) -> Option<char> {
    if c == '(' {
        Some('(')
    } else if c == ')' {
        Some(')')
    } else if c == 'n' {
        Some('\n')
    } else if c == '"' {
        Some('"')
    } else if c == '\\' {
        Some('\\')
    } else {
        None
    }
}

/// The rest of a quoted string from the position on, behind the text
/// `acc` that was read so far: the whole text, and where it ends.
pub open spec fn quoted_tail(s: Seq<char>, at: int, acc: Seq<char>) -> Option<(Seq<char>, int)>
    decreases s.len() - at,
{
    if at < 0 || at >= s.len() {
        None
    } else if s[at] == '"' {
        Some((acc, at + 1))
    } else if s[at] == '\\' {
        if at + 1 < s.len() && unescape(s[at + 1]) is Some {
            quoted_tail(s, at + 2, acc.push(unescape(s[at + 1])->0))
        } else {
            None
        }
    } else {
        quoted_tail(s, at + 1, acc.push(s[at]))
    }
}

/// A quoted string at the position: its text, and where it ends.
pub open spec fn quoted(s: Seq<char>, at: int) -> Option<(Seq<char>, int)> {
    if char_at(s, at, '"') {
        quoted_tail(s, at + 1, Seq::empty())
    } else {
        None
    }
}

/// The value of a decimal digit.
pub open spec fn digit_value(c: char) -> Option<nat> {
    if c == '0' {
        Some(0)
    } else if c == '1' {
        Some(1)
    } else if c == '2' {
        Some(2)
    } else if c == '3' {
        Some(3)
    } else if c == '4' {
        Some(4)
    } else if c == '5' {
        Some(5)
    } else if c == '6' {
        Some(6)
    } else if c == '7' {
        Some(7)
    } else if c == '8' {
        Some(8)
    } else if c == '9' {
        Some(9)
    } else {
        None
    }
}

/// The value of the digits from the position on, behind digits of the
/// value `acc`, and where they end.
pub open spec fn digits_tail(s: Seq<char>, at: int, acc: nat) -> (nat, int)
    decreases s.len() - at,
{
    if 0 <= at < s.len() && digit_value(s[at]) is Some {
        digits_tail(s, at + 1, acc * 10 + digit_value(s[at])->0)
    } else {
        (acc, at)
    }
}

/// An unsigned number at the position: one digit or more, with a value
/// that a machine word holds.
pub open spec fn number(s: Seq<char>, at: int) -> Option<(nat, int)> {
    let (value, end) = digits_tail(s, at, 0);
    if end > at && value <= usize::MAX {
        Some((value, end))
    } else {
        None
    }
}

/// What was read, once the character `c` follows it.
pub open spec fn then_char<T>(read: Option<(T, int)>, s: Seq<char>, c: char) -> Option<(T, int)> {
    match read {
        Some((value, at)) => if char_at(s, at, c) {
            Some((value, at + 1))
        } else {
            None
        },
        None => None,
    }
}

/// A pair of quoted strings in round brackets at the position.
pub open spec fn pair(s: Seq<char>, at: int) -> Option<(Pair, int)> {
    if !char_at(s, at, '(') {
        None
    } else {
        match then_char(quoted(s, at + 1), s, ',') {
            Some((key, a)) => match then_char(quoted(s, a), s, ')') {
                Some((value, b)) => Some(((key, value), b)),
                None => None,
            },
            None => None,
        }
    }
}

/// The rest of a list of quoted strings behind the items `acc`.
pub open spec fn strings_tail(s: Seq<char>, at: int, acc: Seq<Seq<char>>) -> Option<
    (Seq<Seq<char>>, int),
>
    decreases s.len() - at,
{
    if char_at(s, at, ']') {
        Some((acc, at + 1))
    } else if char_at(s, at, ',') {
        match quoted(s, at + 1) {
            Some((item, next)) => if at < next <= s.len() {
                strings_tail(s, next, acc.push(item))
            } else {
                None
            },
            None => None,
        }
    } else {
        None
    }
}

/// A list of one quoted string or more in square brackets.
pub open spec fn strings(s: Seq<char>, at: int) -> Option<(Seq<Seq<char>>, int)> {
    if !char_at(s, at, '[') {
        None
    } else {
        match quoted(s, at + 1) {
            Some((item, next)) => strings_tail(s, next, seq![item]),
            None => None,
        }
    }
}

/// The rest of a list of pairs behind the items `acc`.
pub open spec fn pairs_tail(s: Seq<char>, at: int, acc: Seq<Pair>) -> Option<(Seq<Pair>, int)>
    decreases s.len() - at,
{
    if char_at(s, at, ']') {
        Some((acc, at + 1))
    } else if char_at(s, at, ',') {
        match pair(s, at + 1) {
            Some((item, next)) => if at < next <= s.len() {
                pairs_tail(s, next, acc.push(item))
            } else {
                None
            },
            None => None,
        }
    } else {
        None
    }
}

/// A list of one pair or more in square brackets.
pub open spec fn pairs(s: Seq<char>, at: int) -> Option<(Seq<Pair>, int)> {
    if !char_at(s, at, '[') {
        None
    } else {
        match pair(s, at + 1) {
            Some((item, next)) => pairs_tail(s, next, seq![item]),
            None => None,
        }
    }
}

/// `static(` name `,` value `)` at the start of the text.
pub open spec fn static_field(s: Seq<char>) -> Option<(FieldSpec, int)> {
    if !tag_at(s, 0, "static("@) {
        None
    } else {
        match then_char(quoted(s, "static("@.len() as int), s, ',') {
            Some((name, a)) => match then_char(quoted(s, a), s, ')') {
                Some((val, b)) => Some((FieldSpec::Static { name, val }, b)),
                None => None,
            },
            None => None,
        }
    }
}

/// `email(` name `,` domains `)` at the start of the text.
pub open spec fn email_field(s: Seq<char>) -> Option<(FieldSpec, int)> {
    if !tag_at(s, 0, "email("@) {
        None
    } else {
        match then_char(quoted(s, "email("@.len() as int), s, ',') {
            Some((name, a)) => match then_char(strings(s, a), s, ')') {
                Some((domains, b)) => Some((FieldSpec::Email { name, domains }, b)),
                None => None,
            },
            None => None,
        }
    }
}

/// `choose_n(` count `,` pairs `)` at the start of the text.
pub open spec fn choose_n_field(s: Seq<char>) -> Option<(FieldSpec, int)> {
    if !tag_at(s, 0, "choose_n("@) {
        None
    } else {
        match then_char(number(s, "choose_n("@.len() as int), s, ',') {
            Some((n, a)) => match then_char(pairs(s, a), s, ')') {
                Some((kvps, b)) => Some((FieldSpec::ChooseN { n, kvps }, b)),
                None => None,
            },
            None => None,
        }
    }
}

/// `cellphone(` name `)` at the start of the text.
pub open spec fn cellphone_field(s: Seq<char>) -> Option<(FieldSpec, int)> {
    if !tag_at(s, 0, "cellphone("@) {
        None
    } else {
        match then_char(quoted(s, "cellphone("@.len() as int), s, ')') {
            Some((name, a)) => Some((FieldSpec::CellPhone { name }, a)),
            None => None,
        }
    }
}

/// `choose_any(` pairs `)` at the start of the text.
pub open spec fn choose_any_field(s: Seq<char>) -> Option<(FieldSpec, int)> {
    if !tag_at(s, 0, "choose_any("@) {
        None
    } else {
        match then_char(pairs(s, "choose_any("@.len() as int), s, ')') {
            Some((options, a)) => Some((FieldSpec::ChooseAny { options }, a)),
            None => None,
        }
    }
}

/// `date(` name `,` first year `,` last year `)` at the start of the text.
pub open spec fn date_field(s: Seq<char>) -> Option<(FieldSpec, int)> {
    if !tag_at(s, 0, "date("@) {
        None
    } else {
        match then_char(quoted(s, "date("@.len() as int), s, ',') {
            Some((name, a)) => match then_char(number(s, a), s, ',') {
                Some((min, b)) => match then_char(number(s, b), s, ')') {
                    Some((max, c)) => Some((FieldSpec::Date { name, min, max }, c)),
                    None => None,
                },
                None => None,
            },
            None => None,
        }
    }
}

/// A name and a length behind the opening `tag`, closed by `)`.
pub open spec fn sized_field(s: Seq<char>, tag: Seq<char>) -> Option<((Seq<char>, nat), int)> {
    if !tag_at(s, 0, tag) {
        None
    } else {
        match then_char(quoted(s, tag.len() as int), s, ',') {
            Some((name, a)) => match then_char(number(s, a), s, ')') {
                Some((max_len, b)) => Some(((name, max_len), b)),
                None => None,
            },
            None => None,
        }
    }
}

/// `string(` name `,` length `)` at the start of the text.
pub open spec fn string_field(s: Seq<char>) -> Option<(FieldSpec, int)> {
    match sized_field(s, "string("@) {
        Some(((name, max_len), end)) => Some((FieldSpec::String { name, max_len }, end)),
        None => None,
    }
}

/// `name(` name `,` length `)` at the start of the text.
pub open spec fn name_field(s: Seq<char>) -> Option<(FieldSpec, int)> {
    match sized_field(s, "name("@) {
        Some(((name, max_len), end)) => Some((FieldSpec::Name { name, max_len }, end)),
        None => None,
    }
}

/// The first kind of field, in the grammar's order, that the start of the
/// text is, and where it ends.
pub open spec fn first_field(s: Seq<char>) -> Option<(FieldSpec, int)> {
    if static_field(s) is Some {
        static_field(s)
    } else if email_field(s) is Some {
        email_field(s)
    } else if choose_n_field(s) is Some {
        choose_n_field(s)
    } else if cellphone_field(s) is Some {
        cellphone_field(s)
    } else if choose_any_field(s) is Some {
        choose_any_field(s)
    } else if date_field(s) is Some {
        date_field(s)
    } else if string_field(s) is Some {
        string_field(s)
    } else {
        name_field(s)
    }
}

/// The field that a whole line is: the first kind that its start is,
/// with nothing behind it.
pub open spec fn line_field(s: Seq<char>) -> Option<FieldSpec> {
    match first_field(s) {
        Some((field, end)) => if end == s.len() {
            Some(field)
        } else {
            None
        },
        None => None,
    }
}

/// Whether a text was read as wanted.
pub open spec fn same_text(got: Option<(String, usize)>, want: Option<(Seq<char>, int)>) -> bool {
    match want {
        Some((text, end)) => got matches Some(read) && read.0@ == text && read.1 == end,
        None => got is None,
    }
}

/// Whether a number was read as wanted.
pub open spec fn same_number(got: Option<(usize, usize)>, want: Option<(nat, int)>) -> bool {
    match want {
        Some((value, end)) => got matches Some(read) && read.0 == value && read.1 == end,
        None => got is None,
    }
}

/// Whether a pair was read as wanted.
pub open spec fn same_pair(
    got: Option<((String, String), usize)>,
    want: Option<(Pair, int)>,
) -> bool {
    match want {
        Some((item, end)) => got matches Some(read) && (read.0).0@ == item.0
            && (read.0).1@ == item.1 && read.1 == end,
        None => got is None,
    }
}

/// Whether a list of strings was read as wanted.
pub open spec fn same_strings(
    got: Option<(Vec<String>, usize)>,
    want: Option<(Seq<Seq<char>>, int)>,
) -> bool {
    match want {
        Some((list, end)) => got matches Some(read) && strings_view(read.0@) == list
            && read.1 == end,
        None => got is None,
    }
}

/// Whether a list of pairs was read as wanted.
pub open spec fn same_pairs(
    got: Option<(Vec<(String, String)>, usize)>,
    want: Option<(Seq<Pair>, int)>,
) -> bool {
    match want {
        Some((list, end)) => got matches Some(read) && pairs_view(read.0@) == list && read.1 == end,
        None => got is None,
    }
}

/// Whether a field was read as wanted.
pub open spec fn same_field(
    got: Option<(Parameter, usize)>,
    want: Option<(FieldSpec, int)>,
) -> bool {
    match want {
        Some((field, end)) => got matches Some(read) && read.0@ == field && read.1 == end,
        None => got is None,
    }
}

/// Whether a position that was read lies in the text and behind `at`.
pub open spec fn in_text<T>(got: Option<(T, usize)>, at: usize, len: nat) -> bool {
    got matches Some(read) ==> at < read.1 <= len
}

fn is_char(chars: &Vec<char>, at: usize, c: char) -> (yes: bool)
    ensures
        yes == char_at(chars@, at as int, c),
        yes ==> at < chars@.len() <= usize::MAX,
{
    at < chars.len() && chars[at] == c
}

fn starts_with(chars: &Vec<char>, tag: &str) -> (yes: bool)
    ensures
        yes == tag_at(chars@, 0, tag@),
{
    let len: usize = tag.unicode_len();
    if len > chars.len() {
        return false;
    }
    let mut i: usize = 0;
    while i < len
        invariant
            i <= len,
            len == tag@.len(),
            len <= chars@.len(),
            forall|k: int| 0 <= k < i ==> chars@[k] == tag@[k],
        decreases len - i,
    {
        if chars[i] != tag.get_char(i) {
            assert(chars@.subrange(0, len as int)[i as int] != tag@[i as int]);
            return false;
        }
        i += 1;
    }
    assert(chars@.subrange(0, len as int) =~= tag@);
    true
}

fn unescaped(c: char) -> (plain: Option<char>)
    ensures
        plain == unescape(c),
{
    if c == '(' {
        Some('(')
    } else if c == ')' {
        Some(')')
    } else if c == 'n' {
        Some('\n')
    } else if c == '"' {
        Some('"')
    } else if c == '\\' {
        Some('\\')
    } else {
        None
    }
}

fn digit_of(c: char) -> (value: Option<usize>)
    ensures
        match digit_value(c) {
            Some(d) => value == Some(d as usize) && d <= 9,
            None => value is None,
        },
{
    if c == '0' {
        Some(0)
    } else if c == '1' {
        Some(1)
    } else if c == '2' {
        Some(2)
    } else if c == '3' {
        Some(3)
    } else if c == '4' {
        Some(4)
    } else if c == '5' {
        Some(5)
    } else if c == '6' {
        Some(6)
    } else if c == '7' {
        Some(7)
    } else if c == '8' {
        Some(8)
    } else if c == '9' {
        Some(9)
    } else {
        None
    }
}

fn quoted_at(chars: &Vec<char>, at: usize) -> (got: Option<(String, usize)>)
    ensures
        same_text(got, quoted(chars@, at as int)),
        in_text(got, at, chars@.len()),
{
    if !is_char(chars, at, '"') {
        return None;
    }
    let mut text: String = String::new();
    let mut i: usize = at + 1;
    loop
        invariant
            at < i <= chars.len(),
            quoted(chars@, at as int) == quoted_tail(chars@, i as int, text@),
        decreases chars.len() - i,
    {
        if i >= chars.len() {
            return None;
        }
        let c: char = chars[i];
        if c == '"' {
            return Some((text, i + 1));
        }
        if c == '\\' {
            if i + 1 >= chars.len() {
                return None;
            }
            match unescaped(chars[i + 1]) {
                Some(plain) => {
                    push_char(&mut text, plain);
                    i += 2;
                },
                None => {
                    return None;
                },
            }
        } else {
            push_char(&mut text, c);
            i += 1;
        }
    }
}

fn number_at(chars: &Vec<char>, at: usize) -> (got: Option<(usize, usize)>)
    ensures
        same_number(got, number(chars@, at as int)),
        in_text(got, at, chars@.len()),
{
    let mut i: usize = at;
    let mut held: Option<usize> = Some(0);
    let ghost mut value: nat = 0;
    loop
        invariant
            at <= i,
            i <= chars.len() || i == at,
            digits_tail(chars@, at as int, 0) == digits_tail(chars@, i as int, value),
            match held {
                Some(v) => v == value,
                None => value > usize::MAX,
            },
        ensures
            !(i < chars@.len() && digit_value(chars@[i as int]) is Some),
        decreases chars.len() - i,
    {
        if i >= chars.len() {
            break ;
        }
        let d: usize = match digit_of(chars[i]) {
            Some(d) => d,
            None => {
                break ;
            },
        };
        held =
        match held {
            Some(v) => match v.checked_mul(10) {
                Some(tens) => tens.checked_add(d),
                None => None,
            },
            None => None,
        };
        proof {
            value = value * 10 + d as nat;
        }
        i += 1;
    }
    if i == at {
        return None;
    }
    match held {
        Some(v) => Some((v, i)),
        None => None,
    }
}

fn pair_at(chars: &Vec<char>, at: usize) -> (got: Option<((String, String), usize)>)
    ensures
        same_pair(got, pair(chars@, at as int)),
        in_text(got, at, chars@.len()),
{
    if !is_char(chars, at, '(') {
        return None;
    }
    let (key, a) = match quoted_at(chars, at + 1) {
        Some(read) => read,
        None => {
            return None;
        },
    };
    if !is_char(chars, a, ',') {
        return None;
    }
    let (value, b) = match quoted_at(chars, a + 1) {
        Some(read) => read,
        None => {
            return None;
        },
    };
    if !is_char(chars, b, ')') {
        return None;
    }
    Some(((key, value), b + 1))
}

fn strings_at(chars: &Vec<char>, at: usize) -> (got: Option<(Vec<String>, usize)>)
    ensures
        same_strings(got, strings(chars@, at as int)),
        in_text(got, at, chars@.len()),
{
    if !is_char(chars, at, '[') {
        return None;
    }
    let (first, start) = match quoted_at(chars, at + 1) {
        Some(read) => read,
        None => {
            return None;
        },
    };
    let mut list: Vec<String> = Vec::new();
    list.push(first);
    assert(strings_view(list@) =~= seq![first@]);
    let mut i: usize = start;
    loop
        invariant
            at < i <= chars.len(),
            strings(chars@, at as int) == strings_tail(chars@, i as int, strings_view(list@)),
        decreases chars.len() - i,
    {
        if is_char(chars, i, ']') {
            return Some((list, i + 1));
        }
        if !is_char(chars, i, ',') {
            return None;
        }
        let ghost before = strings_view(list@);
        match quoted_at(chars, i + 1) {
            Some((item, next)) => {
                list.push(item);
                assert(strings_view(list@) =~= before.push(item@));
                i = next;
            },
            None => {
                return None;
            },
        }
    }
}

fn pairs_at(chars: &Vec<char>, at: usize) -> (got: Option<(Vec<(String, String)>, usize)>)
    ensures
        same_pairs(got, pairs(chars@, at as int)),
        in_text(got, at, chars@.len()),
{
    if !is_char(chars, at, '[') {
        return None;
    }
    let (first, start) = match pair_at(chars, at + 1) {
        Some(read) => read,
        None => {
            return None;
        },
    };
    let ghost head = (first.0@, first.1@);
    let mut list: Vec<(String, String)> = Vec::new();
    list.push(first);
    assert(pairs_view(list@) =~= seq![head]);
    let mut i: usize = start;
    loop
        invariant
            at < i <= chars.len(),
            pairs(chars@, at as int) == pairs_tail(chars@, i as int, pairs_view(list@)),
        decreases chars.len() - i,
    {
        if is_char(chars, i, ']') {
            return Some((list, i + 1));
        }
        if !is_char(chars, i, ',') {
            return None;
        }
        let ghost before = pairs_view(list@);
        match pair_at(chars, i + 1) {
            Some((item, next)) => {
                let ghost read = (item.0@, item.1@);
                list.push(item);
                assert(pairs_view(list@) =~= before.push(read));
                i = next;
            },
            None => {
                return None;
            },
        }
    }
}

fn quoted_then(chars: &Vec<char>, at: usize, c: char) -> (got: Option<(String, usize)>)
    ensures
        same_text(got, then_char(quoted(chars@, at as int), chars@, c)),
        in_text(got, at, chars@.len()),
{
    match quoted_at(chars, at) {
        Some((value, end)) => if is_char(chars, end, c) {
            Some((value, end + 1))
        } else {
            None
        },
        None => None,
    }
}

fn number_then(chars: &Vec<char>, at: usize, c: char) -> (got: Option<(usize, usize)>)
    ensures
        same_number(got, then_char(number(chars@, at as int), chars@, c)),
        in_text(got, at, chars@.len()),
{
    match number_at(chars, at) {
        Some((value, end)) => if is_char(chars, end, c) {
            Some((value, end + 1))
        } else {
            None
        },
        None => None,
    }
}

fn strings_then(chars: &Vec<char>, at: usize, c: char) -> (got: Option<(Vec<String>, usize)>)
    ensures
        same_strings(got, then_char(strings(chars@, at as int), chars@, c)),
        in_text(got, at, chars@.len()),
{
    match strings_at(chars, at) {
        Some((value, end)) => if is_char(chars, end, c) {
            Some((value, end + 1))
        } else {
            None
        },
        None => None,
    }
}

fn pairs_then(chars: &Vec<char>, at: usize, c: char) -> (got: Option<
    (Vec<(String, String)>, usize),
>)
    ensures
        same_pairs(got, then_char(pairs(chars@, at as int), chars@, c)),
        in_text(got, at, chars@.len()),
{
    match pairs_at(chars, at) {
        Some((value, end)) => if is_char(chars, end, c) {
            Some((value, end + 1))
        } else {
            None
        },
        None => None,
    }
}

fn static_at(chars: &Vec<char>) -> (got: Option<(Parameter, usize)>)
    ensures
        same_field(got, static_field(chars@)),
        in_text(got, 0, chars@.len()),
{
    if !starts_with(chars, "static(") {
        return None;
    }
    let (name, a) = match quoted_then(chars, "static(".unicode_len(), ',') {
        Some(read) => read,
        None => {
            return None;
        },
    };
    match quoted_then(chars, a, ')') {
        Some((val, end)) => Some((Parameter::Static { name, val }, end)),
        None => None,
    }
}

fn email_at(chars: &Vec<char>) -> (got: Option<(Parameter, usize)>)
    ensures
        same_field(got, email_field(chars@)),
        in_text(got, 0, chars@.len()),
{
    if !starts_with(chars, "email(") {
        return None;
    }
    let (name, a) = match quoted_then(chars, "email(".unicode_len(), ',') {
        Some(read) => read,
        None => {
            return None;
        },
    };
    match strings_then(chars, a, ')') {
        Some((domains, end)) => Some((Parameter::Email { name, domains }, end)),
        None => None,
    }
}

fn choose_n_at(chars: &Vec<char>) -> (got: Option<(Parameter, usize)>)
    ensures
        same_field(got, choose_n_field(chars@)),
        in_text(got, 0, chars@.len()),
{
    if !starts_with(chars, "choose_n(") {
        return None;
    }
    let (n, a) = match number_then(chars, "choose_n(".unicode_len(), ',') {
        Some(read) => read,
        None => {
            return None;
        },
    };
    match pairs_then(chars, a, ')') {
        Some((kvps, end)) => Some((Parameter::ChooseN { n, kvps }, end)),
        None => None,
    }
}

fn cellphone_at(chars: &Vec<char>) -> (got: Option<(Parameter, usize)>)
    ensures
        same_field(got, cellphone_field(chars@)),
        in_text(got, 0, chars@.len()),
{
    if !starts_with(chars, "cellphone(") {
        return None;
    }
    match quoted_then(chars, "cellphone(".unicode_len(), ')') {
        Some((name, end)) => Some((Parameter::CellPhone { name }, end)),
        None => None,
    }
}

fn choose_any_at(chars: &Vec<char>) -> (got: Option<(Parameter, usize)>)
    ensures
        same_field(got, choose_any_field(chars@)),
        in_text(got, 0, chars@.len()),
{
    if !starts_with(chars, "choose_any(") {
        return None;
    }
    match pairs_then(chars, "choose_any(".unicode_len(), ')') {
        Some((options, end)) => Some((Parameter::ChooseAny { options }, end)),
        None => None,
    }
}

fn date_at(chars: &Vec<char>) -> (got: Option<(Parameter, usize)>)
    ensures
        same_field(got, date_field(chars@)),
        in_text(got, 0, chars@.len()),
{
    if !starts_with(chars, "date(") {
        return None;
    }
    let (name, a) = match quoted_then(chars, "date(".unicode_len(), ',') {
        Some(read) => read,
        None => {
            return None;
        },
    };
    let (min, b) = match number_then(chars, a, ',') {
        Some(read) => read,
        None => {
            return None;
        },
    };
    match number_then(chars, b, ')') {
        Some((max, end)) => Some((Parameter::Date { name, min, max }, end)),
        None => None,
    }
}

fn sized_at(chars: &Vec<char>, tag: &str) -> (got: Option<((String, usize), usize)>)
    ensures
        match sized_field(chars@, tag@) {
            Some((want, end)) => got matches Some(read) && (read.0).0@ == want.0 && (read.0).1
                == want.1 && read.1 == end,
            None => got is None,
        },
        in_text(got, 0, chars@.len()),
{
    if !starts_with(chars, tag) {
        return None;
    }
    let (name, a) = match quoted_then(chars, tag.unicode_len(), ',') {
        Some(read) => read,
        None => {
            return None;
        },
    };
    match number_then(chars, a, ')') {
        Some((max_len, end)) => Some(((name, max_len), end)),
        None => None,
    }
}

fn string_at(chars: &Vec<char>) -> (got: Option<(Parameter, usize)>)
    ensures
        same_field(got, string_field(chars@)),
        in_text(got, 0, chars@.len()),
{
    match sized_at(chars, "string(") {
        Some(((name, max_len), end)) => Some((Parameter::String { name, max_len }, end)),
        None => None,
    }
}

fn name_at(chars: &Vec<char>) -> (got: Option<(Parameter, usize)>)
    ensures
        same_field(got, name_field(chars@)),
        in_text(got, 0, chars@.len()),
{
    match sized_at(chars, "name(") {
        Some(((name, max_len), end)) => Some((Parameter::Name { name, max_len }, end)),
        None => None,
    }
}

fn first_at(chars: &Vec<char>) -> (got: Option<(Parameter, usize)>)
    ensures
        same_field(got, first_field(chars@)),
        in_text(got, 0, chars@.len()),
{
    if let Some(read) = static_at(chars) {
        return Some(read);
    }
    if let Some(read) = email_at(chars) {
        return Some(read);
    }
    if let Some(read) = choose_n_at(chars) {
        return Some(read);
    }
    if let Some(read) = cellphone_at(chars) {
        return Some(read);
    }
    if let Some(read) = choose_any_at(chars) {
        return Some(read);
    }
    if let Some(read) = date_at(chars) {
        return Some(read);
    }
    if let Some(read) = string_at(chars) {
        return Some(read);
    }
    name_at(chars)
}

/// Whether `result` reports what was wanted of the start of `input`: the
/// value with the text behind it, or the whole input as malformed.
pub open spec fn is_parse(
    input: Seq<char>,
    want: Option<(FieldSpec, int)>,
    result: Result<(&str, Parameter), ParseError>,
) -> bool {
    match want {
        Some((field, end)) => result matches Ok(read) && read.1@ == field && 0 <= end
            <= input.len() && read.0@ == input.subrange(end, input.len() as int),
        None => result matches Err(ParseError::Malformed(line)) && line@ == input,
    }
}

fn report<'a>(input: &'a str, got: Option<(Parameter, usize)>) -> (result: Result<
    (&'a str, Parameter),
    ParseError,
>)
    requires
        got matches Some(read) ==> read.1 <= input@.len(),
    ensures
        match got {
            Some(read) => result matches Ok(ok) && ok.1 == read.0 && ok.0@ == input@.subrange(
                read.1 as int,
                input@.len() as int,
            ),
            None => result matches Err(ParseError::Malformed(line)) && line@ == input@,
        },
{
    match got {
        Some((field, end)) => Ok((input.substring_char(end, input.unicode_len()), field)),
        None => Err(ParseError::Malformed(String::from_str(input))),
    }
}

/// Reads a quoted string at the start of the input. Behind a backslash
/// stand `(`, `)`, `n` for a line feed, `"` or `\\`, and nothing else.
pub fn parse_string(input: &str) -> (result: Result<(&str, String), ParseError>)
    ensures
        match quoted(input@, 0) {
            Some((text, end)) => result matches Ok(read) && read.1@ == text && 0 <= end
                <= input@.len() && read.0@ == input@.subrange(end, input@.len() as int),
            None => result matches Err(ParseError::Malformed(line)) && line@ == input@,
        },
{
    let chars = to_chars(input);
    match quoted_at(&chars, 0) {
        Some((text, end)) => Ok((input.substring_char(end, input.unicode_len()), text)),
        None => Err(ParseError::Malformed(String::from_str(input))),
    }
}

/// Reads a pair of quoted strings in round brackets at the start of the
/// input.
pub fn parse_kvp(input: &str) -> (result: Result<(&str, (String, String)), ParseError>)
    ensures
        match pair(input@, 0) {
            Some((item, end)) => result matches Ok(read) && (read.1).0@ == item.0 && (read.1).1@
                == item.1 && 0 <= end <= input@.len() && read.0@ == input@.subrange(
                end,
                input@.len() as int,
            ),
            None => result matches Err(ParseError::Malformed(line)) && line@ == input@,
        },
{
    let chars = to_chars(input);
    match pair_at(&chars, 0) {
        Some((item, end)) => Ok((input.substring_char(end, input.unicode_len()), item)),
        None => Err(ParseError::Malformed(String::from_str(input))),
    }
}

/// Reads a constant field at the start of the input.
pub fn parse_static(input: &str) -> (result: Result<(&str, Parameter), ParseError>)
    ensures
        is_parse(input@, static_field(input@), result),
{
    let chars = to_chars(input);
    report(input, static_at(&chars))
}

/// Reads an e-mail field at the start of the input.
pub fn parse_email(input: &str) -> (result: Result<(&str, Parameter), ParseError>)
    ensures
        is_parse(input@, email_field(input@), result),
{
    let chars = to_chars(input);
    report(input, email_at(&chars))
}

/// Reads a choice of several pairs at the start of the input.
pub fn parse_choose_n(input: &str) -> (result: Result<(&str, Parameter), ParseError>)
    ensures
        is_parse(input@, choose_n_field(input@), result),
{
    let chars = to_chars(input);
    report(input, choose_n_at(&chars))
}

/// Reads a telephone field at the start of the input.
pub fn parse_cellphone(input: &str) -> (result: Result<(&str, Parameter), ParseError>)
    ensures
        is_parse(input@, cellphone_field(input@), result),
{
    let chars = to_chars(input);
    report(input, cellphone_at(&chars))
}

/// Reads a choice of one pair at the start of the input.
pub fn parse_choose_any(input: &str) -> (result: Result<(&str, Parameter), ParseError>)
    ensures
        is_parse(input@, choose_any_field(input@), result),
{
    let chars = to_chars(input);
    report(input, choose_any_at(&chars))
}

/// Reads a date field at the start of the input.
pub fn parse_date(input: &str) -> (result: Result<(&str, Parameter), ParseError>)
    ensures
        is_parse(input@, date_field(input@), result),
{
    let chars = to_chars(input);
    report(input, date_at(&chars))
}

/// Reads a string field at the start of the input.
pub fn parse_string_entry(input: &str) -> (result: Result<(&str, Parameter), ParseError>)
    ensures
        is_parse(input@, string_field(input@), result),
{
    let chars = to_chars(input);
    report(input, string_at(&chars))
}

/// Reads a name field at the start of the input.
pub fn parse_name(input: &str) -> (result: Result<(&str, Parameter), ParseError>)
    ensures
        is_parse(input@, name_field(input@), result),
{
    let chars = to_chars(input);
    report(input, name_at(&chars))
}

/// Reads the characters of a whole line as one field, if they are one.
pub fn parse_chars(chars: &Vec<char>) -> (result: Option<Parameter>)
    ensures
        match line_field(chars@) {
            Some(field) => result matches Some(read) && read@ == field,
            None => result is None,
        },
{
    match first_at(chars) {
        Some((field, end)) => if end == chars.len() {
            Some(field)
        } else {
            None
        },
        None => None,
    }
}

/// Reads a whole line as one field: the first kind, in the grammar's
/// order, that the line starts with, and nothing behind it.
pub fn parse_line(input: &str) -> (result: Result<Parameter, ParseError>)
    ensures
        match line_field(input@) {
            Some(field) => result matches Ok(read) && read@ == field,
            None => result matches Err(ParseError::Malformed(line)) && line@ == input@,
        },
{
    let chars = to_chars(input);
    match parse_chars(&chars) {
        Some(field) => Ok(field),
        None => Err(ParseError::Malformed(String::from_str(input))),
    }
}

impl Parameter {
    /// Reads a whole line as one field.
    pub fn try_parse(input: &str) -> (result: Result<Parameter, ParseError>)
        ensures
            match line_field(input@) {
                Some(field) => result matches Ok(read) && read@ == field,
                None => result matches Err(ParseError::Malformed(line)) && line@ == input@,
            },
    {
        parse_line(input)
    }
}

} // verus!
