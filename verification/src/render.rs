//! Writing fields as lines of the form language, and the proof that a
//! line so written is read back as the field.

use vstd::prelude::*;
use crate::field::FieldSpec;
use crate::params::Pair;
use crate::parser::{
    cellphone_field, char_at, choose_any_field, choose_n_field, date_field, digit_value,
    digits_tail, email_field, line_field, number, pair, pairs, pairs_tail, quoted, quoted_tail,
    sized_field, strings, strings_tail, tag_at,
};
use crate::text::{decimal, digit_char};

verus! {

/// Whether the text holds `piece` from the position on.
pub open spec fn holds(s: Seq<char>, at: int, piece: Seq<char>) -> bool {
    &&& 0 <= at
    &&& at + piece.len() <= s.len()
    &&& forall|i: int| 0 <= i < piece.len() ==> s[at + i] == #[trigger] piece[i]
}

/// How one character is written inside a quoted string.
pub open spec fn escaped_char(c: char) -> Seq<char> {
    if c == '(' {
        seq!['\\', '(']
    } else if c == ')' {
        seq!['\\', ')']
    } else if c == '\n' {
        seq!['\\', 'n']
    } else if c == '"' {
        seq!['\\', '"']
    } else if c == '\\' {
        seq!['\\', '\\']
    } else {
        seq![c]
    }
}

/// How a text is written inside a quoted string.
pub open spec fn escaped(text: Seq<char>) -> Seq<char>
    decreases text.len(),
{
    if text.len() == 0 {
        Seq::empty()
    } else {
        escaped_char(text[0]) + escaped(text.drop_first())
    }
}

/// A text written as a quoted string.
pub open spec fn quote(text: Seq<char>) -> Seq<char> {
    seq!['"'] + (escaped(text) + seq!['"'])
}

/// A text that holds two pieces one behind the other holds each.
pub proof fn lemma_holds_split(s: Seq<char>, at: int, a: Seq<char>, b: Seq<char>)
    requires
        holds(s, at, a + b),
    ensures
        holds(s, at, a),
        holds(s, at + a.len(), b),
{
    let whole = a + b;
    assert forall|i: int| 0 <= i < a.len() implies s[at + i] == #[trigger] a[i] by {
        assert(whole[i] == a[i]);
    }
    assert forall|i: int| 0 <= i < b.len() implies s[at + a.len() + i] == #[trigger] b[i] by {
        assert(whole[a.len() + i] == b[i]);
    }
}

/// A text that holds a piece holds it as a tag.
pub proof fn lemma_holds_tag(s: Seq<char>, at: int, piece: Seq<char>)
    requires
        holds(s, at, piece),
    ensures
        tag_at(s, at, piece),
{
    assert(s.subrange(at, at + piece.len()) =~= piece);
}

/// A tag with another first character is not at the start of the text.
pub proof fn lemma_other_tag(s: Seq<char>, tag: Seq<char>, i: int)
    requires
        0 <= i < tag.len(),
        i < s.len(),
        s[i] != tag[i],
    ensures
        !tag_at(s, 0, tag),
{
    if tag_at(s, 0, tag) {
        assert(s.subrange(0, tag.len() as int)[i] == s[i]);
    }
}

proof fn lemma_quoted_tail(s: Seq<char>, at: int, text: Seq<char>, acc: Seq<char>)
    requires
        holds(s, at, escaped(text) + seq!['"']),
    ensures
        quoted_tail(s, at, acc) == Some((acc + text, at + escaped(text).len() + 1)),
    decreases text.len(),
{
    let piece = escaped(text) + seq!['"'];
    if text.len() == 0 {
        assert(s[at + 0] == piece[0]);
        assert(acc + text =~= acc);
    } else {
        let c = text[0];
        let rest = text.drop_first();
        let head = escaped_char(c);
        assert(piece =~= head + (escaped(rest) + seq!['"']));
        lemma_holds_split(s, at, head, escaped(rest) + seq!['"']);
        lemma_quoted_tail(s, at + head.len(), rest, acc.push(c));
        assert(acc.push(c) + rest =~= acc + text);
        assert(s[at + 0] == head[0]);
        if head.len() == 2 {
            assert(s[at + 1] == head[1]);
        }
    }
}

/// A quoted string is read back as the text that was written.
pub proof fn lemma_quoted_round_trip(s: Seq<char>, at: int, text: Seq<char>)
    requires
        holds(s, at, quote(text)),
    ensures
        quoted(s, at) == Some((text, at + quote(text).len())),
{
    lemma_holds_split(s, at, seq!['"'], escaped(text) + seq!['"']);
    assert(s[at + 0] == seq!['"'][0]);
    lemma_quoted_tail(s, at + 1, text, Seq::empty());
    assert(Seq::<char>::empty() + text =~= text);
}

proof fn lemma_digits(s: Seq<char>, at: int, n: nat)
    requires
        holds(s, at, decimal(n)),
    ensures
        decimal(n).len() >= 1,
        digits_tail(s, at, 0) == digits_tail(s, at + decimal(n).len(), n),
    decreases n,
{
    if n < 10 {
        assert(s[at + 0] == decimal(n)[0]);
        assert(digit_value(digit_char(n as int)) == Some(n));
    } else {
        let front = decimal(n / 10);
        let d = digit_char((n % 10) as int);
        assert(decimal(n) =~= front + seq![d]);
        lemma_holds_split(s, at, front, seq![d]);
        lemma_digits(s, at, n / 10);
        let p = at + front.len();
        assert(s[p + 0] == seq![d][0]);
        assert(digit_value(d) == Some(n % 10));
        assert(digits_tail(s, p, n / 10) == digits_tail(s, p + 1, (n / 10) * 10 + n % 10));
    }
}

/// A number that a machine word holds is read back from its decimal
/// digits, where no digit follows them.
pub proof fn lemma_number_round_trip(s: Seq<char>, at: int, n: nat)
    requires
        holds(s, at, decimal(n)),
        n <= usize::MAX,
        at + decimal(n).len() < s.len() ==> digit_value(s[at + decimal(n).len()]) is None,
    ensures
        number(s, at) == Some((n, at + decimal(n).len())),
{
    lemma_digits(s, at, n);
}

/// A text that holds the front of a longer text, which it also holds,
/// holds the pieces of that front.
proof fn lemma_front(s: Seq<char>, a: Seq<char>, b: Seq<char>)
    requires
        holds(s, 0, a + b),
    ensures
        holds(s, 0, a),
        holds(s, a.len() as int, b),
        (a + b).len() == a.len() + b.len(),
{
    lemma_holds_split(s, 0, a, b);
}

proof fn lemma_one(s: Seq<char>, at: int, c: char)
    requires
        holds(s, at, seq![c]),
    ensures
        char_at(s, at, c),
{
    assert(s[at + 0] == seq![c][0]);
}

/// The characters by which the opening tags of the kinds differ.
proof fn lemma_tags()
    ensures
        "static("@.len() == 7 && "static("@[0] == 's' && "static("@[2] == 'a',
        "email("@.len() == 6 && "email("@[0] == 'e',
        "choose_n("@.len() == 9 && "choose_n("@[0] == 'c' && "choose_n("@[1] == 'h'
            && "choose_n("@[7] == 'n',
        "cellphone("@.len() == 10 && "cellphone("@[0] == 'c' && "cellphone("@[1] == 'e',
        "choose_any("@.len() == 11 && "choose_any("@[0] == 'c' && "choose_any("@[1] == 'h'
            && "choose_any("@[7] == 'a',
        "date("@.len() == 5 && "date("@[0] == 'd',
        "string("@.len() == 7 && "string("@[0] == 's' && "string("@[2] == 'r',
        "name("@.len() == 5 && "name("@[0] == 'n',
{
    reveal_strlit("static(");
    reveal_strlit("email(");
    reveal_strlit("choose_n(");
    reveal_strlit("cellphone(");
    reveal_strlit("choose_any(");
    reveal_strlit("date(");
    reveal_strlit("string(");
    reveal_strlit("name(");
}

/// A constant field written as a line.
pub open spec fn static_line(name: Seq<char>, val: Seq<char>) -> Seq<char> {
    "static("@ + quote(name) + seq![','] + quote(val) + seq![')']
}

/// A telephone field written as a line.
pub open spec fn cellphone_line(name: Seq<char>) -> Seq<char> {
    "cellphone("@ + quote(name) + seq![')']
}

/// A date field written as a line.
pub open spec fn date_line(name: Seq<char>, min: nat, max: nat) -> Seq<char> {
    "date("@ + quote(name) + seq![','] + decimal(min) + seq![','] + decimal(max) + seq![')']
}

/// A name and a length behind an opening tag, written as a line.
pub open spec fn sized_line(tag: Seq<char>, name: Seq<char>, max_len: nat) -> Seq<char> {
    tag + quote(name) + seq![','] + decimal(max_len) + seq![')']
}

/// A constant field that is written as a line is read back as it was.
pub proof fn lemma_static_round_trip(name: Seq<char>, val: Seq<char>)
    ensures
        line_field(static_line(name, val)) == Some(FieldSpec::Static { name, val }),
{
    let s = static_line(name, val);
    let tag = "static("@;
    let x1 = tag + quote(name);
    let x2 = x1 + seq![','];
    let x3 = x2 + quote(val);
    assert(holds(s, 0, s));
    lemma_front(s, x3, seq![')']);
    lemma_front(s, x2, quote(val));
    lemma_front(s, x1, seq![',']);
    lemma_front(s, tag, quote(name));
    lemma_holds_tag(s, 0, tag);
    lemma_quoted_round_trip(s, tag.len() as int, name);
    lemma_one(s, x1.len() as int, ',');
    lemma_quoted_round_trip(s, x2.len() as int, val);
    lemma_one(s, x3.len() as int, ')');
}

proof fn lemma_cellphone_field(name: Seq<char>)
    ensures
        cellphone_field(cellphone_line(name)) == Some(
            (FieldSpec::CellPhone { name }, cellphone_line(name).len() as int),
        ),
        holds(cellphone_line(name), 0, "cellphone("@),
{
    let s = cellphone_line(name);
    let tag = "cellphone("@;
    let x1 = tag + quote(name);
    assert(holds(s, 0, s));
    lemma_front(s, x1, seq![')']);
    lemma_front(s, tag, quote(name));
    lemma_holds_tag(s, 0, tag);
    lemma_quoted_round_trip(s, tag.len() as int, name);
    lemma_one(s, x1.len() as int, ')');
}

/// A telephone field that is written as a line is read back as it was.
pub proof fn lemma_cellphone_round_trip(name: Seq<char>)
    ensures
        line_field(cellphone_line(name)) == Some(FieldSpec::CellPhone { name }),
{
    let s = cellphone_line(name);
    let tag = "cellphone("@;
    lemma_cellphone_field(name);
    lemma_tags();
    assert(s[0] == tag[0]);
    assert(s[1] == tag[1]);
    lemma_other_tag(s, "static("@, 0);
    lemma_other_tag(s, "email("@, 0);
    lemma_other_tag(s, "choose_n("@, 1);
}

proof fn lemma_date_field(name: Seq<char>, min: nat, max: nat)
    requires
        min <= usize::MAX,
        max <= usize::MAX,
    ensures
        date_field(date_line(name, min, max)) == Some(
            (FieldSpec::Date { name, min, max }, date_line(name, min, max).len() as int),
        ),
        holds(date_line(name, min, max), 0, "date("@),
{
    let s = date_line(name, min, max);
    let tag = "date("@;
    let x1 = tag + quote(name);
    let x2 = x1 + seq![','];
    let x3 = x2 + decimal(min);
    let x4 = x3 + seq![','];
    let x5 = x4 + decimal(max);
    assert(holds(s, 0, s));
    lemma_front(s, x5, seq![')']);
    lemma_front(s, x4, decimal(max));
    lemma_front(s, x3, seq![',']);
    lemma_front(s, x2, decimal(min));
    lemma_front(s, x1, seq![',']);
    lemma_front(s, tag, quote(name));
    lemma_holds_tag(s, 0, tag);
    lemma_quoted_round_trip(s, tag.len() as int, name);
    lemma_one(s, x1.len() as int, ',');
    lemma_one(s, x3.len() as int, ',');
    lemma_one(s, x5.len() as int, ')');
    lemma_number_round_trip(s, x2.len() as int, min);
    lemma_number_round_trip(s, x4.len() as int, max);
}

/// A date field that is written as a line is read back as it was.
pub proof fn lemma_date_round_trip(name: Seq<char>, min: nat, max: nat)
    requires
        min <= usize::MAX,
        max <= usize::MAX,
    ensures
        line_field(date_line(name, min, max)) == Some(FieldSpec::Date { name, min, max }),
{
    let s = date_line(name, min, max);
    let tag = "date("@;
    lemma_date_field(name, min, max);
    lemma_tags();
    assert(s[0] == tag[0]);
    lemma_other_tag(s, "static("@, 0);
    lemma_other_tag(s, "email("@, 0);
    lemma_other_tag(s, "choose_n("@, 0);
    lemma_other_tag(s, "cellphone("@, 0);
    lemma_other_tag(s, "choose_any("@, 0);
}

proof fn lemma_sized(tag: Seq<char>, name: Seq<char>, max_len: nat)
    requires
        max_len <= usize::MAX,
    ensures
        sized_field(sized_line(tag, name, max_len), tag) == Some(
            ((name, max_len), sized_line(tag, name, max_len).len() as int),
        ),
        holds(sized_line(tag, name, max_len), 0, tag),
        sized_line(tag, name, max_len).len() > tag.len(),
{
    let s = sized_line(tag, name, max_len);
    let x1 = tag + quote(name);
    let x2 = x1 + seq![','];
    let x3 = x2 + decimal(max_len);
    assert(holds(s, 0, s));
    lemma_front(s, x3, seq![')']);
    lemma_front(s, x2, decimal(max_len));
    lemma_front(s, x1, seq![',']);
    lemma_front(s, tag, quote(name));
    lemma_holds_tag(s, 0, tag);
    lemma_quoted_round_trip(s, tag.len() as int, name);
    lemma_one(s, x1.len() as int, ',');
    lemma_one(s, x3.len() as int, ')');
    lemma_number_round_trip(s, x2.len() as int, max_len);
}

/// A string field that is written as a line is read back as it was.
pub proof fn lemma_string_round_trip(name: Seq<char>, max_len: nat)
    requires
        max_len <= usize::MAX,
    ensures
        line_field(sized_line("string("@, name, max_len)) == Some(
            FieldSpec::String { name, max_len },
        ),
{
    let tag = "string("@;
    let s = sized_line(tag, name, max_len);
    lemma_sized(tag, name, max_len);
    lemma_tags();
    assert(s[0] == tag[0]);
    assert(s[2] == tag[2]);
    lemma_other_tag(s, "static("@, 2);
    lemma_other_tag(s, "email("@, 0);
    lemma_other_tag(s, "choose_n("@, 0);
    lemma_other_tag(s, "cellphone("@, 0);
    lemma_other_tag(s, "choose_any("@, 0);
    lemma_other_tag(s, "date("@, 0);
}

/// A name field that is written as a line is read back as it was.
pub proof fn lemma_name_round_trip(name: Seq<char>, max_len: nat)
    requires
        max_len <= usize::MAX,
    ensures
        line_field(sized_line("name("@, name, max_len)) == Some(FieldSpec::Name { name, max_len }),
{
    let tag = "name("@;
    let s = sized_line(tag, name, max_len);
    lemma_sized(tag, name, max_len);
    lemma_tags();
    assert(s[0] == tag[0]);
    lemma_other_tag(s, "static("@, 0);
    lemma_other_tag(s, "email("@, 0);
    lemma_other_tag(s, "choose_n("@, 0);
    lemma_other_tag(s, "cellphone("@, 0);
    lemma_other_tag(s, "choose_any("@, 0);
    lemma_other_tag(s, "date("@, 0);
    lemma_other_tag(s, "string("@, 0);
}

/// A pair written in round brackets.
pub open spec fn pair_text(item: Pair) -> Seq<char> {
    seq!['('] + (quote(item.0) + (seq![','] + (quote(item.1) + seq![')'])))
}

/// A pair is read back as it was written.
pub proof fn lemma_pair_round_trip(s: Seq<char>, at: int, item: Pair)
    requires
        holds(s, at, pair_text(item)),
    ensures
        pair(s, at) == Some((item, at + pair_text(item).len())),
{
    let key = quote(item.0);
    let value = quote(item.1);
    lemma_holds_split(s, at, seq!['('], key + (seq![','] + (value + seq![')'])));
    lemma_one(s, at, '(');
    lemma_holds_split(s, at + 1, key, seq![','] + (value + seq![')']));
    lemma_quoted_round_trip(s, at + 1, item.0);
    lemma_holds_split(s, at + 1 + key.len(), seq![','], value + seq![')']);
    lemma_one(s, at + 1 + key.len(), ',');
    lemma_holds_split(s, at + 2 + key.len(), value, seq![')']);
    lemma_quoted_round_trip(s, at + 2 + key.len(), item.1);
    lemma_one(s, at + 2 + key.len() + value.len(), ')');
}

/// What follows the first item of a list of quoted strings: each further item
/// behind a comma, and the closing bracket.
pub open spec fn strings_rest(items: Seq<Seq<char>>) -> Seq<char>
    decreases items.len(),
{
    if items.len() == 0 {
        seq![']']
    } else {
        seq![','] + (quote(items[0]) + strings_rest(items.drop_first()))
    }
}

/// A list of quoted strings written in square brackets.
pub open spec fn strings_text(items: Seq<Seq<char>>) -> Seq<char>
    recommends
        items.len() >= 1,
{
    seq!['['] + (quote(items[0]) + strings_rest(items.drop_first()))
}

proof fn lemma_strings_tail(s: Seq<char>, at: int, items: Seq<Seq<char>>, acc: Seq<Seq<char>>)
    requires
        holds(s, at, strings_rest(items)),
    ensures
        strings_tail(s, at, acc) == Some((acc + items, at + strings_rest(items).len())),
    decreases items.len(),
{
    if items.len() == 0 {
        lemma_one(s, at, ']');
        assert(acc + items =~= acc);
    } else {
        let first = quote(items[0]);
        let rest = strings_rest(items.drop_first());
        lemma_holds_split(s, at, seq![','], first + rest);
        lemma_one(s, at, ',');
        lemma_holds_split(s, at + 1, first, rest);
        lemma_quoted_round_trip(s, at + 1, items[0]);
        lemma_strings_tail(s, at + 1 + first.len(), items.drop_first(), acc.push(items[0]));
        assert(acc.push(items[0]) + items.drop_first() =~= acc + items);
    }
}

/// A list of quoted strings is read back as the items that were written.
pub proof fn lemma_strings_round_trip(s: Seq<char>, at: int, items: Seq<Seq<char>>)
    requires
        items.len() >= 1,
        holds(s, at, strings_text(items)),
    ensures
        strings(s, at) == Some((items, at + strings_text(items).len())),
{
    let first = quote(items[0]);
    let rest = strings_rest(items.drop_first());
    lemma_holds_split(s, at, seq!['['], first + rest);
    lemma_one(s, at, '[');
    lemma_holds_split(s, at + 1, first, rest);
    lemma_quoted_round_trip(s, at + 1, items[0]);
    lemma_strings_tail(s, at + 1 + first.len(), items.drop_first(), seq![items[0]]);
    assert(seq![items[0]] + items.drop_first() =~= items);
}

/// What follows the first item of a list of pairs: each further item
/// behind a comma, and the closing bracket.
pub open spec fn pairs_rest(items: Seq<Pair>) -> Seq<char>
    decreases items.len(),
{
    if items.len() == 0 {
        seq![']']
    } else {
        seq![','] + (pair_text(items[0]) + pairs_rest(items.drop_first()))
    }
}

/// A list of pairs written in square brackets.
pub open spec fn pairs_text(items: Seq<Pair>) -> Seq<char>
    recommends
        items.len() >= 1,
{
    seq!['['] + (pair_text(items[0]) + pairs_rest(items.drop_first()))
}

proof fn lemma_pairs_tail(s: Seq<char>, at: int, items: Seq<Pair>, acc: Seq<Pair>)
    requires
        holds(s, at, pairs_rest(items)),
    ensures
        pairs_tail(s, at, acc) == Some((acc + items, at + pairs_rest(items).len())),
    decreases items.len(),
{
    if items.len() == 0 {
        lemma_one(s, at, ']');
        assert(acc + items =~= acc);
    } else {
        let first = pair_text(items[0]);
        let rest = pairs_rest(items.drop_first());
        lemma_holds_split(s, at, seq![','], first + rest);
        lemma_one(s, at, ',');
        lemma_holds_split(s, at + 1, first, rest);
        lemma_pair_round_trip(s, at + 1, items[0]);
        lemma_pairs_tail(s, at + 1 + first.len(), items.drop_first(), acc.push(items[0]));
        assert(acc.push(items[0]) + items.drop_first() =~= acc + items);
    }
}

/// A list of pairs is read back as the items that were written.
pub proof fn lemma_pairs_round_trip(s: Seq<char>, at: int, items: Seq<Pair>)
    requires
        items.len() >= 1,
        holds(s, at, pairs_text(items)),
    ensures
        pairs(s, at) == Some((items, at + pairs_text(items).len())),
{
    let first = pair_text(items[0]);
    let rest = pairs_rest(items.drop_first());
    lemma_holds_split(s, at, seq!['['], first + rest);
    lemma_one(s, at, '[');
    lemma_holds_split(s, at + 1, first, rest);
    lemma_pair_round_trip(s, at + 1, items[0]);
    lemma_pairs_tail(s, at + 1 + first.len(), items.drop_first(), seq![items[0]]);
    assert(seq![items[0]] + items.drop_first() =~= items);
}

/// An e-mail field written as a line.
pub open spec fn email_line(name: Seq<char>, domains: Seq<Seq<char>>) -> Seq<char>
    recommends
        domains.len() >= 1,
{
    "email("@ + quote(name) + seq![','] + strings_text(domains) + seq![')']
}

/// A choice of one pair written as a line.
pub open spec fn choose_any_line(options: Seq<Pair>) -> Seq<char>
    recommends
        options.len() >= 1,
{
    "choose_any("@ + pairs_text(options) + seq![')']
}

/// A choice of several pairs written as a line.
pub open spec fn choose_n_line(n: nat, kvps: Seq<Pair>) -> Seq<char>
    recommends
        kvps.len() >= 1,
{
    "choose_n("@ + decimal(n) + seq![','] + pairs_text(kvps) + seq![')']
}

proof fn lemma_email_field(name: Seq<char>, domains: Seq<Seq<char>>)
    requires
        domains.len() >= 1,
    ensures
        email_field(email_line(name, domains)) == Some(
            (FieldSpec::Email { name, domains }, email_line(name, domains).len() as int),
        ),
        holds(email_line(name, domains), 0, "email("@),
{
    let s = email_line(name, domains);
    let tag = "email("@;
    let x1 = tag + quote(name);
    let x2 = x1 + seq![','];
    let x3 = x2 + strings_text(domains);
    assert(holds(s, 0, s));
    lemma_front(s, x3, seq![')']);
    lemma_front(s, x2, strings_text(domains));
    lemma_front(s, x1, seq![',']);
    lemma_front(s, tag, quote(name));
    lemma_holds_tag(s, 0, tag);
    lemma_quoted_round_trip(s, tag.len() as int, name);
    lemma_one(s, x1.len() as int, ',');
    lemma_strings_round_trip(s, x2.len() as int, domains);
    lemma_one(s, x3.len() as int, ')');
}

/// An e-mail field that is written as a line is read back as it was.
pub proof fn lemma_email_round_trip(name: Seq<char>, domains: Seq<Seq<char>>)
    requires
        domains.len() >= 1,
    ensures
        line_field(email_line(name, domains)) == Some(FieldSpec::Email { name, domains }),
{
    let s = email_line(name, domains);
    let tag = "email("@;
    lemma_email_field(name, domains);
    lemma_tags();
    assert(s[0] == tag[0]);
    lemma_other_tag(s, "static("@, 0);
}

proof fn lemma_choose_any_field(options: Seq<Pair>)
    requires
        options.len() >= 1,
    ensures
        choose_any_field(choose_any_line(options)) == Some(
            (FieldSpec::ChooseAny { options }, choose_any_line(options).len() as int),
        ),
        holds(choose_any_line(options), 0, "choose_any("@),
{
    let s = choose_any_line(options);
    let tag = "choose_any("@;
    let x1 = tag + pairs_text(options);
    assert(holds(s, 0, s));
    lemma_front(s, x1, seq![')']);
    lemma_front(s, tag, pairs_text(options));
    lemma_holds_tag(s, 0, tag);
    lemma_pairs_round_trip(s, tag.len() as int, options);
    lemma_one(s, x1.len() as int, ')');
}

/// A choice of one pair that is written as a line is read back as it
/// was.
pub proof fn lemma_choose_any_round_trip(options: Seq<Pair>)
    requires
        options.len() >= 1,
    ensures
        line_field(choose_any_line(options)) == Some(FieldSpec::ChooseAny { options }),
{
    let s = choose_any_line(options);
    let tag = "choose_any("@;
    lemma_choose_any_field(options);
    lemma_tags();
    assert(s[0] == tag[0]);
    assert(s[1] == tag[1]);
    assert(s[7] == tag[7]);
    lemma_other_tag(s, "static("@, 0);
    lemma_other_tag(s, "email("@, 0);
    lemma_other_tag(s, "choose_n("@, 7);
    lemma_other_tag(s, "cellphone("@, 1);
}

proof fn lemma_choose_n_field(n: nat, kvps: Seq<Pair>)
    requires
        n <= usize::MAX,
        kvps.len() >= 1,
    ensures
        choose_n_field(choose_n_line(n, kvps)) == Some(
            (FieldSpec::ChooseN { n, kvps }, choose_n_line(n, kvps).len() as int),
        ),
        holds(choose_n_line(n, kvps), 0, "choose_n("@),
{
    let s = choose_n_line(n, kvps);
    let tag = "choose_n("@;
    let x1 = tag + decimal(n);
    let x2 = x1 + seq![','];
    let x3 = x2 + pairs_text(kvps);
    assert(holds(s, 0, s));
    lemma_front(s, x3, seq![')']);
    lemma_front(s, x2, pairs_text(kvps));
    lemma_front(s, x1, seq![',']);
    lemma_front(s, tag, decimal(n));
    lemma_holds_tag(s, 0, tag);
    lemma_one(s, x1.len() as int, ',');
    lemma_number_round_trip(s, tag.len() as int, n);
    lemma_pairs_round_trip(s, x2.len() as int, kvps);
    lemma_one(s, x3.len() as int, ')');
}

/// A choice of several pairs that is written as a line is read back as
/// it was.
pub proof fn lemma_choose_n_round_trip(n: nat, kvps: Seq<Pair>)
    requires
        n <= usize::MAX,
        kvps.len() >= 1,
    ensures
        line_field(choose_n_line(n, kvps)) == Some(FieldSpec::ChooseN { n, kvps }),
{
    let s = choose_n_line(n, kvps);
    let tag = "choose_n("@;
    lemma_choose_n_field(n, kvps);
    lemma_tags();
    assert(s[0] == tag[0]);
    lemma_other_tag(s, "static("@, 0);
    lemma_other_tag(s, "email("@, 0);
}

/// Whether the field is one that the language can write: its kind has a
/// line, its lists hold an item, and its numbers fit a machine word.
pub open spec fn has_line(field: FieldSpec) -> bool {
    match field {
        FieldSpec::Email { name, domains } => domains.len() >= 1,
        FieldSpec::ChooseAny { options } => options.len() >= 1,
        FieldSpec::ChooseN { n, kvps } => kvps.len() >= 1 && n <= usize::MAX,
        FieldSpec::Date { name, min, max } => min <= usize::MAX && max <= usize::MAX,
        FieldSpec::String { name, max_len } => max_len <= usize::MAX,
        FieldSpec::Name { name, max_len } => max_len <= usize::MAX,
        FieldSpec::Static { name, val } => true,
        FieldSpec::CellPhone { name } => true,
        FieldSpec::YesNo { name } => false,
        FieldSpec::CheckBoxes { kvps } => false,
        FieldSpec::OptionalString { name } => false,
    }
}

/// The line that writes a field.
pub open spec fn line_of(field: FieldSpec) -> Seq<char>
    recommends
        has_line(field),
{
    match field {
        FieldSpec::Email { name, domains } => email_line(name, domains),
        FieldSpec::ChooseAny { options } => choose_any_line(options),
        FieldSpec::ChooseN { n, kvps } => choose_n_line(n, kvps),
        FieldSpec::Date { name, min, max } => date_line(name, min, max),
        FieldSpec::String { name, max_len } => sized_line("string("@, name, max_len),
        FieldSpec::Name { name, max_len } => sized_line("name("@, name, max_len),
        FieldSpec::Static { name, val } => static_line(name, val),
        FieldSpec::CellPhone { name } => cellphone_line(name),
        _ => Seq::empty(),
    }
}

/// Every field that the language can write is read back from its line as
/// it was, with every name, value and number that it holds.
pub proof fn lemma_line_round_trip(field: FieldSpec)
    requires
        has_line(field),
    ensures
        line_field(line_of(field)) == Some(field),
{
    match field {
        FieldSpec::Email { name, domains } => lemma_email_round_trip(name, domains),
        FieldSpec::ChooseAny { options } => lemma_choose_any_round_trip(options),
        FieldSpec::ChooseN { n, kvps } => lemma_choose_n_round_trip(n, kvps),
        FieldSpec::Date { name, min, max } => lemma_date_round_trip(name, min, max),
        FieldSpec::String { name, max_len } => lemma_string_round_trip(name, max_len),
        FieldSpec::Name { name, max_len } => lemma_name_round_trip(name, max_len),
        FieldSpec::Static { name, val } => lemma_static_round_trip(name, val),
        FieldSpec::CellPhone { name } => lemma_cellphone_round_trip(name),
        _ => {},
    }
}

} // verus!
