//! A configuration: one field to each line that is not blank.

use vstd::prelude::*;
use vstd::string::*;
use crate::field::{fields_view, FieldSpec, Parameter};
use crate::parser::{line_field, parse_chars};
use crate::text::{from_chars, to_chars};

verus! {

/// Why a configuration was refused: its first line that is no field, or
/// that is a field for which no value can be drawn.
#[derive(Debug, Clone, PartialEq)]
pub struct ConfigError {
    /// The number of the line, the first line being line 1.
    pub line_number: usize,
    /// The line, without the white space around it.
    pub line: String,
}

/// Whether a character is white space, as Unicode defines it.
pub open spec fn is_space(c: char) -> bool {
    ||| '\t' <= c <= '\r'
    ||| c == ' '
    ||| c == '\u{85}'
    ||| c == '\u{a0}'
    ||| c == '\u{1680}'
    ||| '\u{2000}' <= c <= '\u{200a}'
    ||| c == '\u{2028}'
    ||| c == '\u{2029}'
    ||| c == '\u{202f}'
    ||| c == '\u{205f}'
    ||| c == '\u{3000}'
}

/// Where the line that holds the position ends: at the next line feed,
/// or at the end of the text.
pub open spec fn line_end(s: Seq<char>, at: int) -> int
    decreases s.len() - at,
{
    if 0 <= at < s.len() && s[at] != '\n' {
        line_end(s, at + 1)
    } else {
        at
    }
}

/// The first position from `at` on, before `end`, that holds no white
/// space; `end` if there is none.
pub open spec fn skip_spaces(s: Seq<char>, at: int, end: int) -> int
    decreases end - at,
{
    if 0 <= at < end <= s.len() && is_space(s[at]) {
        skip_spaces(s, at + 1, end)
    } else {
        at
    }
}

/// The position behind the last character before `end`, from `start` on,
/// that is no white space; `start` if there is none.
pub open spec fn drop_spaces(s: Seq<char>, start: int, end: int) -> int
    decreases end - start,
{
    if 0 <= start < end <= s.len() && is_space(s[end - 1]) {
        drop_spaces(s, start, end - 1)
    } else {
        end
    }
}

/// The text between two positions without the white space around it.
pub open spec fn trimmed(s: Seq<char>, start: int, end: int) -> Seq<char> {
    let first = skip_spaces(s, start, end);
    s.subrange(first, drop_spaces(s, first, end))
}

/// What one line adds to the fields read so far: nothing if it is blank,
/// its field if it is one that values can be drawn for, and else the
/// refusal of the line.
pub open spec fn with_line(acc: Seq<FieldSpec>, text: Seq<char>, number: nat) -> Result<
    Seq<FieldSpec>,
    (nat, Seq<char>),
> {
    if text.len() == 0 {
        Ok(acc)
    } else {
        match line_field(text) {
            Some(field) => if field.well_formed() {
                Ok(acc.push(field))
            } else {
                Err((number, text))
            },
            None => Err((number, text)),
        }
    }
}

/// The fields of the lines from the position on, behind the fields `acc`
/// of the lines before it, or the first line that is refused.
pub open spec fn config_tail(s: Seq<char>, at: int, number: nat, acc: Seq<FieldSpec>) -> Result<
    Seq<FieldSpec>,
    (nat, Seq<char>),
>
    decreases s.len() - at,
{
    let end = line_end(s, at);
    match with_line(acc, trimmed(s, at, end), number) {
        Ok(fields) => if 0 <= at <= end < s.len() {
            config_tail(s, end + 1, number + 1, fields)
        } else {
            Ok(fields)
        },
        Err(refused) => Err(refused),
    }
}

/// The fields of a configuration, in the order of its lines, or its
/// first line that is refused, with its number.
pub open spec fn config(s: Seq<char>) -> Result<Seq<FieldSpec>, (nat, Seq<char>)> {
    config_tail(s, 0, 1, Seq::empty())
}

fn is_space_char(c: char) -> (yes: bool)
    ensures
        yes == is_space(c),
{
    ('\t' <= c && c <= '\r') || c == ' ' || c == '\u{85}' || c == '\u{a0}' || c == '\u{1680}' || (
    '\u{2000}' <= c && c <= '\u{200a}') || c == '\u{2028}' || c == '\u{2029}' || c == '\u{202f}'
        || c == '\u{205f}' || c == '\u{3000}'
}

fn find_line_end(chars: &Vec<char>, at: usize) -> (end: usize)
    requires
        at <= chars@.len(),
    ensures
        end == line_end(chars@, at as int),
        at <= end <= chars@.len(),
{
    let mut end: usize = at;
    while end < chars.len() && chars[end] != '\n'
        invariant
            at <= end <= chars.len(),
            line_end(chars@, at as int) == line_end(chars@, end as int),
        decreases chars.len() - end,
    {
        end += 1;
    }
    end
}

fn trim(chars: &Vec<char>, start: usize, end: usize) -> (text: Vec<char>)
    requires
        start <= end <= chars@.len(),
    ensures
        text@ == trimmed(chars@, start as int, end as int),
{
    let mut first: usize = start;
    while first < end && is_space_char(chars[first])
        invariant
            start <= first <= end <= chars.len(),
            skip_spaces(chars@, start as int, end as int) == skip_spaces(
                chars@,
                first as int,
                end as int,
            ),
        decreases end - first,
    {
        first += 1;
    }
    let mut last: usize = end;
    while first < last && is_space_char(chars[last - 1])
        invariant
            first <= last <= end <= chars.len(),
            drop_spaces(chars@, first as int, end as int) == drop_spaces(
                chars@,
                first as int,
                last as int,
            ),
        decreases last - first,
    {
        last -= 1;
    }
    let mut text: Vec<char> = Vec::new();
    let mut i: usize = first;
    while i < last
        invariant
            first <= i <= last <= chars.len(),
            text@ == chars@.subrange(first as int, i as int),
        decreases last - i,
    {
        text.push(chars[i]);
        assert(text@ == chars@.subrange(first as int, i + 1));
        i += 1;
    }
    text
}

/// Reads a configuration: every line that is not blank is one field, read
/// without the white space around it. The first line that is no field,
/// or that is a field for which no value can be drawn, refuses the whole
/// configuration.
pub fn parse_config(contents: &str) -> (result: Result<Vec<Parameter>, ConfigError>)
    requires
        contents@.len() < usize::MAX,
    ensures
        match config(contents@) {
            Ok(fields) => result matches Ok(list) && fields_view(list@) == fields,
            Err(refused) => result matches Err(error) && error.line_number == refused.0
                && error.line@ == refused.1,
        },
        result matches Ok(list) ==> forall|i: int|
            0 <= i < list@.len() ==> (#[trigger] list@[i])@.well_formed(),
{
    let chars = to_chars(contents);
    let mut list: Vec<Parameter> = Vec::new();
    let mut at: usize = 0;
    let mut number: usize = 1;
    assert(fields_view(list@) =~= Seq::empty());
    loop
        invariant
            chars@ == contents@,
            chars@.len() < usize::MAX,
            at <= chars.len(),
            number <= at + 1,
            config(chars@) == config_tail(chars@, at as int, number as nat, fields_view(list@)),
            forall|i: int| 0 <= i < list@.len() ==> (#[trigger] list@[i])@.well_formed(),
        decreases chars.len() - at,
    {
        let end: usize = find_line_end(&chars, at);
        let text: Vec<char> = trim(&chars, at, end);
        if text.len() > 0 {
            let ghost before = fields_view(list@);
            match parse_chars(&text) {
                Some(field) => {
                    if !field.is_well_formed() {
                        return Err(ConfigError { line_number: number, line: from_chars(&text) });
                    }
                    list.push(field);
                    assert(fields_view(list@) =~= before.push(field@));
                },
                None => {
                    return Err(ConfigError { line_number: number, line: from_chars(&text) });
                },
            }
        }
        if end >= chars.len() {
            return Ok(list);
        }
        at = end + 1;
        number += 1;
    }
}

} // verus!
