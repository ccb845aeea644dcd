//! Drawing random values for the fields of a form.

use vstd::prelude::*;
use vstd::string::*;
use vstd::seq_lib::*;
use rand::Rng;
use rand::seq::SliceRandom;
use crate::field::{fields_view, pairs_view, strings_view, FieldSpec, Parameter};
use crate::params::{insert_all, lemma_insert_all_concat, Pair, ParameterMap};
use crate::text::{clone_pairs, decimal, padded, push_char, push_decimal, push_padded};

verus! {

/// A uniformly drawn number between two bounds, both included.
///
/// Trusted: this is `rand::Rng::random_range` on the thread's generator,
/// with an inclusive range. It panics on an empty range, which the
/// precondition leaves out, and returns a member of the range.
#[verifier::external_body]
fn random_between(low: usize, high: usize) -> (drawn: usize)
    requires
        low <= high,
    ensures
        low <= drawn <= high,
{
    rand::rng().random_range(low..=high)
}

/// A coin that shows `true` with the given odds.
///
/// Trusted: this is `rand::Rng::random_ratio` on the thread's generator.
/// It panics on a zero denominator or a numerator above the denominator;
/// it is documented to return `false` for a zero numerator and `true`
/// where numerator and denominator are equal.
#[verifier::external_body]
fn random_ratio(numerator: u32, denominator: u32) -> (drawn: bool)
    requires
        0 < denominator,
        numerator <= denominator,
    ensures
        numerator == 0 ==> !drawn,
        numerator == denominator ==> drawn,
{
    rand::rng().random_ratio(numerator, denominator)
}

/// Reorders the pairs at random.
///
/// Trusted: this is `rand::seq::SliceRandom::shuffle` with the thread's
/// generator, which permutes the slice in place: the same pairs are
/// there afterwards, each as often as before.
#[verifier::external_body]
fn shuffle(pairs: &mut Vec<(String, String)>)
    ensures
        pairs_view(final(pairs)@).to_multiset() == pairs_view(old(pairs)@).to_multiset(),
        final(pairs)@.len() == old(pairs)@.len(),
{
    pairs.shuffle(&mut rand::rng())
}

/// The lower-case letters and the digits.
pub open spec fn lower_alnum() -> Seq<char> {
    "abcdefghijklmnopqrstuvwxyz0123456789"@
}

/// The letters of both cases and the digits.
pub open spec fn alnum() -> Seq<char> {
    "abcdefghijklmnopqrstuvwxyzABCDEFGHIJKLMNOPQRSTUVWXYZ0123456789"@
}

/// The letters of both cases, the digits, full stop, comma and space.
pub open spec fn alnum_punct() -> Seq<char> {
    "abcdefghijklmnopqrstuvwxyzABCDEFGHIJKLMNOPQRSTUVWXYZ0123456789., "@
}

/// Whether every character of the text is one of the alphabet.
pub open spec fn all_from(text: Seq<char>, alphabet: Seq<char>) -> bool {
    forall|i: int| 0 <= i < text.len() ==> alphabet.contains(#[trigger] text[i])
}

/// The last day of a month. Every fourth year is a leap year.
pub open spec fn days_in_month(year: nat, month: nat) -> nat {
    if month == 2 {
        if year % 4 == 0 {
            29
        } else {
            28
        }
    } else if month == 4 || month == 6 || month == 9 || month == 11 {
        30
    } else {
        31
    }
}

/// A date written `MM/DD/YYYY`.
pub open spec fn date_text(month: nat, day: nat, year: nat) -> Seq<char> {
    padded(month, 2) + seq!['/'] + padded(day, 2) + seq!['/'] + padded(year, 4)
}

/// A telephone number written `(AAA) MMM-EEEE`.
pub open spec fn phone_text(area: nat, middle: nat, end: nat) -> Seq<char> {
    seq!['('] + decimal(area) + seq![')', ' '] + decimal(middle) + seq!['-'] + decimal(end)
}

/// Two texts joined by one character.
pub open spec fn joined(left: Seq<char>, by: char, right: Seq<char>) -> Seq<char> {
    left + seq![by] + right
}

/// The pairs whose place in the mask is marked, in their order.
pub open spec fn masked(pairs: Seq<Pair>, mask: Seq<bool>) -> Seq<Pair>
    recommends
        pairs.len() == mask.len(),
    decreases pairs.len(),
{
    if pairs.len() == 0 || mask.len() == 0 {
        Seq::empty()
    } else if mask.last() {
        masked(pairs.drop_last(), mask.drop_last()).push(pairs.last())
    } else {
        masked(pairs.drop_last(), mask.drop_last())
    }
}

/// An address drawn for an e-mail field.
pub open spec fn email_drawn(
    name: Seq<char>,
    domains: Seq<Seq<char>>,
    user: Seq<char>,
    domain: int,
    entries: Seq<Pair>,
) -> bool {
    &&& 5 <= user.len() <= 14
    &&& all_from(user, lower_alnum())
    &&& 0 <= domain < domains.len()
    &&& entries == seq![(name, joined(user, '@', domains[domain]))]
}

/// A number drawn for a telephone field.
pub open spec fn phone_drawn(
    name: Seq<char>,
    area: nat,
    middle: nat,
    end: nat,
    entries: Seq<Pair>,
) -> bool {
    &&& 100 <= area <= 998
    &&& 100 <= middle <= 998
    &&& 1000 <= end <= 9998
    &&& entries == seq![(name, phone_text(area, middle, end))]
}

/// A date drawn for a date field.
pub open spec fn date_drawn(
    name: Seq<char>,
    min: nat,
    max: nat,
    month: nat,
    day: nat,
    year: nat,
    entries: Seq<Pair>,
) -> bool {
    &&& min <= year <= max
    &&& 1 <= month <= 12
    &&& 1 <= day <= days_in_month(year, month)
    &&& entries == seq![(name, date_text(month, day, year))]
}

/// A text drawn for a string field.
pub open spec fn text_drawn(
    name: Seq<char>,
    max_len: nat,
    text: Seq<char>,
    entries: Seq<Pair>,
) -> bool {
    &&& 1 <= text.len() <= max_len
    &&& all_from(text, alnum_punct())
    &&& entries == seq![(name, text)]
}

/// Two tokens of one length drawn for a name field.
pub open spec fn name_drawn(
    name: Seq<char>,
    max_len: nat,
    first: Seq<char>,
    last: Seq<char>,
    entries: Seq<Pair>,
) -> bool {
    &&& 1 <= first.len() <= max_len
    &&& last.len() == first.len()
    &&& all_from(first, alnum())
    &&& all_from(last, alnum())
    &&& entries == seq![(name, joined(first, ' ', last))]
}

/// A subset drawn for a group of check boxes.
pub open spec fn boxes_drawn(kvps: Seq<Pair>, mask: Seq<bool>, entries: Seq<Pair>) -> bool {
    &&& mask.len() == kvps.len()
    &&& entries == masked(kvps, mask)
}

/// What a draw for an e-mail field may insert.
pub open spec fn email_outcome(
    name: Seq<char>,
    domains: Seq<Seq<char>>,
    entries: Seq<Pair>,
) -> bool {
    exists|user: Seq<char>, domain: int| #[trigger]
        email_drawn(name, domains, user, domain, entries)
}

/// What a draw for a telephone field may insert.
pub open spec fn phone_outcome(name: Seq<char>, entries: Seq<Pair>) -> bool {
    exists|area: nat, middle: nat, end: nat| #[trigger]
        phone_drawn(name, area, middle, end, entries)
}

/// What a draw for a date field may insert.
pub open spec fn date_outcome(name: Seq<char>, min: nat, max: nat, entries: Seq<Pair>) -> bool {
    exists|month: nat, day: nat, year: nat| #[trigger]
        date_drawn(name, min, max, month, day, year, entries)
}

/// What a draw for a group of check boxes may insert.
pub open spec fn boxes_outcome(kvps: Seq<Pair>, entries: Seq<Pair>) -> bool {
    exists|mask: Seq<bool>| #[trigger] boxes_drawn(kvps, mask, entries)
}

/// What a draw for a string field may insert.
pub open spec fn text_outcome(name: Seq<char>, max_len: nat, entries: Seq<Pair>) -> bool {
    exists|text: Seq<char>| #[trigger] text_drawn(name, max_len, text, entries)
}

/// What a draw for a name field may insert.
pub open spec fn name_outcome(name: Seq<char>, max_len: nat, entries: Seq<Pair>) -> bool {
    exists|first: Seq<char>, last: Seq<char>| #[trigger]
        name_drawn(name, max_len, first, last, entries)
}

/// Whether `entries` is something that one draw for the field may
/// insert, in this order.
pub open spec fn is_outcome(field: FieldSpec, entries: Seq<Pair>) -> bool {
    match field {
        FieldSpec::Email { name, domains } => email_outcome(name, domains, entries),
        FieldSpec::YesNo { name } => entries == seq![(name, "Yes"@)] || entries == seq![
            (name, "No"@),
        ],
        FieldSpec::CellPhone { name } => phone_outcome(name, entries),
        FieldSpec::ChooseAny { options } => if options.len() == 0 {
            entries.len() == 0
        } else {
            entries.len() == 1 && options.contains(entries[0])
        },
        FieldSpec::ChooseN { n, kvps } => entries.len() == n && entries.to_multiset().subset_of(
            kvps.to_multiset(),
        ),
        FieldSpec::Date { name, min, max } => date_outcome(name, min, max, entries),
        FieldSpec::CheckBoxes { kvps } => boxes_outcome(kvps, entries),
        FieldSpec::String { name, max_len } => text_outcome(name, max_len, entries),
        FieldSpec::OptionalString { name } => entries.len() == 0 || entries == seq![
            (name, Seq::<char>::empty()),
        ],
        FieldSpec::Static { name, val } => entries == seq![(name, val)],
        FieldSpec::Name { name, max_len } => name_outcome(name, max_len, entries),
    }
}

/// The entries of several draws, one after the other.
pub open spec fn flat(outcomes: Seq<Seq<Pair>>) -> Seq<Pair>
    decreases outcomes.len(),
{
    if outcomes.len() == 0 {
        Seq::empty()
    } else {
        flat(outcomes.drop_last()) + outcomes.last()
    }
}

/// Whether `outcomes` holds one draw for each field of the list.
pub open spec fn is_run(fields: Seq<FieldSpec>, outcomes: Seq<Seq<Pair>>) -> bool {
    &&& outcomes.len() == fields.len()
    &&& forall|i: int| 0 <= i < fields.len() ==> is_outcome(fields[i], #[trigger] outcomes[i])
}

/// The last day of a month.
pub fn max_day(year: usize, month: usize) -> (day: usize)
    ensures
        day == days_in_month(year as nat, month as nat),
{
    if month == 2 {
        if year % 4 == 0 {
            29
        } else {
            28
        }
    } else if month == 4 || month == 6 || month == 9 || month == 11 {
        30
    } else {
        31
    }
}

/// Writes a date as `MM/DD/YYYY`.
pub fn date_value(month: usize, day: usize, year: usize) -> (text: String)
    ensures
        text@ == date_text(month as nat, day as nat, year as nat),
{
    let mut text: String = String::new();
    push_padded(&mut text, month, 2);
    push_char(&mut text, '/');
    push_padded(&mut text, day, 2);
    push_char(&mut text, '/');
    push_padded(&mut text, year, 4);
    assert(text@ =~= date_text(month as nat, day as nat, year as nat));
    text
}

/// Writes a telephone number as `(AAA) MMM-EEEE`.
pub fn phone_value(area: usize, middle: usize, end: usize) -> (text: String)
    ensures
        text@ == phone_text(area as nat, middle as nat, end as nat),
{
    let mut text: String = String::new();
    push_char(&mut text, '(');
    push_decimal(&mut text, area);
    push_char(&mut text, ')');
    push_char(&mut text, ' ');
    push_decimal(&mut text, middle);
    push_char(&mut text, '-');
    push_decimal(&mut text, end);
    assert(text@ =~= phone_text(area as nat, middle as nat, end as nat));
    text
}

/// Joins two texts by one character.
pub fn join(left: &str, by: char, right: &str) -> (text: String)
    ensures
        text@ == joined(left@, by, right@),
{
    let mut text: String = String::from_str(left);
    push_char(&mut text, by);
    text.append(right);
    text
}

/// The answer that a coin stands for.
pub fn yes_no(yes: bool) -> (text: String)
    ensures
        text@ == if yes {
            "Yes"@
        } else {
            "No"@
        },
{
    if yes {
        String::from_str("Yes")
    } else {
        String::from_str("No")
    }
}

/// The pairs whose place in the mask is marked, in their order.
pub fn pick_marked(pairs: &Vec<(String, String)>, mask: &Vec<bool>) -> (picked: Vec<
    (String, String),
>)
    requires
        mask@.len() == pairs@.len(),
    ensures
        pairs_view(picked@) == masked(pairs_view(pairs@), mask@),
{
    let ghost all = pairs_view(pairs@);
    let mut picked: Vec<(String, String)> = Vec::new();
    let mut i: usize = 0;
    while i < pairs.len()
        invariant
            i <= pairs.len(),
            mask@.len() == pairs@.len(),
            all == pairs_view(pairs@),
            pairs_view(picked@) == masked(all.take(i as int), mask@.take(i as int)),
        decreases pairs.len() - i,
    {
        let ghost before = pairs_view(picked@);
        if mask[i] {
            picked.push((pairs[i].0.clone(), pairs[i].1.clone()));
            assert(pairs_view(picked@) =~= before.push(all[i as int]));
        }
        proof {
            assert(all.take(i + 1).drop_last() =~= all.take(i as int));
            assert(mask@.take(i + 1).drop_last() =~= mask@.take(i as int));
        }
        i += 1;
    }
    assert(all.take(pairs.len() as int) =~= all);
    assert(mask@.take(pairs.len() as int) =~= mask@);
    picked
}

/// The first `n` pairs of a list.
pub fn take_first(pairs: &Vec<(String, String)>, n: usize) -> (taken: Vec<(String, String)>)
    requires
        n <= pairs@.len(),
    ensures
        pairs_view(taken@) == pairs_view(pairs@).take(n as int),
{
    let mut taken: Vec<(String, String)> = Vec::new();
    let mut i: usize = 0;
    while i < n
        invariant
            i <= n <= pairs@.len(),
            pairs_view(taken@) == pairs_view(pairs@).take(i as int),
        decreases n - i,
    {
        let ghost before = pairs_view(taken@);
        taken.push((pairs[i].0.clone(), pairs[i].1.clone()));
        assert(pairs_view(taken@) =~= before.push(pairs_view(pairs@)[i as int]));
        assert(pairs_view(pairs@).take(i + 1) =~= before.push(pairs_view(pairs@)[i as int]));
        i += 1;
    }
    taken
}

/// The first pairs of a list are among its pairs, each no more often.
pub proof fn lemma_take_is_drawn(pairs: Seq<Pair>, n: int)
    requires
        0 <= n <= pairs.len(),
    ensures
        pairs.take(n).to_multiset().subset_of(pairs.to_multiset()),
{
    lemma_multiset_commutative(pairs.take(n), pairs.skip(n));
    assert(pairs.take(n) + pairs.skip(n) =~= pairs);
}

/// A random text of the given length over an alphabet.
fn random_token(alphabet: &str, len: usize) -> (text: String)
    requires
        alphabet@.len() >= 1,
    ensures
        text@.len() == len,
        all_from(text@, alphabet@),
{
    let size: usize = alphabet.unicode_len();
    let mut text: String = String::new();
    let mut i: usize = 0;
    while i < len
        invariant
            i <= len,
            size == alphabet@.len(),
            size >= 1,
            text@.len() == i,
            all_from(text@, alphabet@),
        decreases len - i,
    {
        let at: usize = random_between(0, size - 1);
        let c: char = alphabet.get_char(at);
        let ghost before = text@;
        push_char(&mut text, c);
        assert forall|k: int| 0 <= k < text@.len() implies alphabet@.contains(
            #[trigger] text@[k],
        ) by {
            if k < i {
                assert(text@[k] == before[k]);
            } else {
                assert(alphabet@[at as int] == text@[k]);
            }
        }
        i += 1;
    }
    text
}

/// One coin for each place of a list.
fn random_mask(len: usize) -> (mask: Vec<bool>)
    ensures
        mask@.len() == len,
{
    let mut mask: Vec<bool> = Vec::new();
    let mut i: usize = 0;
    while i < len
        invariant
            i <= len,
            mask@.len() == i,
        decreases len - i,
    {
        mask.push(random_ratio(1, 2));
        i += 1;
    }
    mask
}

fn single(name: &String, value: String) -> (entries: Vec<(String, String)>)
    ensures
        pairs_view(entries@) == seq![(name@, value@)],
{
    let mut entries: Vec<(String, String)> = Vec::new();
    entries.push((name.clone(), value));
    assert(pairs_view(entries@) =~= seq![(name@, value@)]);
    entries
}

impl Parameter {
    /// Draws the entries that this field inserts, in the order in which
    /// they are inserted.
    pub fn gen_entries(&self) -> (entries: Vec<(String, String)>)
        requires
            self@.well_formed(),
        ensures
            is_outcome(self@, pairs_view(entries@)),
    {
        match self {
            Parameter::Email { name, domains } => {
                proof {
                    reveal_strlit("abcdefghijklmnopqrstuvwxyz0123456789");
                }
                let len: usize = random_between(5, 14);
                let user: String = random_token("abcdefghijklmnopqrstuvwxyz0123456789", len);
                let at: usize = random_between(0, domains.len() - 1);
                let value: String = join(user.as_str(), '@', domains[at].as_str());
                let entries = single(name, value);
                assert(email_drawn(
                    name@,
                    strings_view(domains@),
                    user@,
                    at as int,
                    pairs_view(entries@),
                ));
                entries
            },
            Parameter::YesNo { name } => {
                single(name, yes_no(random_ratio(1, 2)))
            },
            Parameter::CellPhone { name } => {
                let area: usize = random_between(100, 998);
                let middle: usize = random_between(100, 998);
                let end: usize = random_between(1000, 9998);
                let entries = single(name, phone_value(area, middle, end));
                assert(phone_drawn(
                    name@,
                    area as nat,
                    middle as nat,
                    end as nat,
                    pairs_view(entries@),
                ));
                entries
            },
            Parameter::Date { name, min, max } => {
                let year: usize = random_between(*min, *max);
                let month: usize = random_between(1, 12);
                let day: usize = random_between(1, max_day(year, month));
                let entries = single(name, date_value(month, day, year));
                assert(date_drawn(
                    name@,
                    *min as nat,
                    *max as nat,
                    month as nat,
                    day as nat,
                    year as nat,
                    pairs_view(entries@),
                ));
                entries
            },
            Parameter::CheckBoxes { kvps } => {
                let mask: Vec<bool> = random_mask(kvps.len());
                let entries = pick_marked(kvps, &mask);
                assert(boxes_drawn(pairs_view(kvps@), mask@, pairs_view(entries@)));
                entries
            },
            Parameter::String { name, max_len } => {
                proof {
                    reveal_strlit(
                        "abcdefghijklmnopqrstuvwxyzABCDEFGHIJKLMNOPQRSTUVWXYZ0123456789., ",
                    );
                }
                let len: usize = random_between(1, *max_len);
                let text: String = random_token(
                    "abcdefghijklmnopqrstuvwxyzABCDEFGHIJKLMNOPQRSTUVWXYZ0123456789., ",
                    len,
                );
                let ghost drawn = text@;
                let entries = single(name, text);
                assert(text_drawn(name@, *max_len as nat, drawn, pairs_view(entries@)));
                entries
            },
            Parameter::Name { name, max_len } => {
                proof {
                    reveal_strlit(
                        "abcdefghijklmnopqrstuvwxyzABCDEFGHIJKLMNOPQRSTUVWXYZ0123456789",
                    );
                }
                let len: usize = random_between(1, *max_len);
                let first: String = random_token(
                    "abcdefghijklmnopqrstuvwxyzABCDEFGHIJKLMNOPQRSTUVWXYZ0123456789",
                    len,
                );
                let last: String = random_token(
                    "abcdefghijklmnopqrstuvwxyzABCDEFGHIJKLMNOPQRSTUVWXYZ0123456789",
                    len,
                );
                let entries = single(name, join(first.as_str(), ' ', last.as_str()));
                assert(name_drawn(name@, *max_len as nat, first@, last@, pairs_view(entries@)));
                entries
            },
            Parameter::OptionalString { name } => {
                if random_ratio(1, 2) {
                    single(name, String::new())
                } else {
                    Vec::new()
                }
            },
            Parameter::ChooseAny { options } => {
                let mut shuffled: Vec<(String, String)> = clone_pairs(options);
                shuffle(&mut shuffled);
                if shuffled.len() > 0 {
                    let entries = take_first(&shuffled, 1);
                    proof {
                        let all = pairs_view(options@);
                        let mixed = pairs_view(shuffled@);
                        let first = pairs_view(entries@)[0];
                        assert(mixed[0] == first);
                        assert(mixed.contains(first));
                        to_multiset_contains(mixed, first);
                        to_multiset_contains(all, first);
                        assert(all.contains(first));
                    }
                    entries
                } else {
                    Vec::new()
                }
            },
            Parameter::ChooseN { n, kvps } => {
                let mut shuffled: Vec<(String, String)> = clone_pairs(kvps);
                shuffle(&mut shuffled);
                let entries = take_first(&shuffled, *n);
                proof {
                    lemma_take_is_drawn(pairs_view(shuffled@), *n as int);
                }
                entries
            },
            Parameter::Static { name, val } => single(name, val.clone()),
        }
    }

    /// Draws the parameters that this field alone gives.
    pub fn gen_params(&self) -> (params: ParameterMap)
        requires
            self@.well_formed(),
        ensures
            params.wf(),
            exists|entries: Seq<Pair>| #[trigger]
                is_outcome(self@, entries) && params@ == insert_all(Map::empty(), entries),
    {
        let entries = self.gen_entries();
        let mut params = ParameterMap::new();
        params.insert_all(&entries);
        params
    }

    /// Draws one value for every field of the list, in the list's order,
    /// and collects them. Where two fields give the same name, the later
    /// value stands.
    pub fn gen_param_map(param_list: &Vec<Parameter>) -> (params: ParameterMap)
        requires
            forall|i: int|
                0 <= i < param_list@.len() ==> (#[trigger] param_list@[i])@.well_formed(),
        ensures
            params.wf(),
            exists|outcomes: Seq<Seq<Pair>>| #[trigger]
                is_run(fields_view(param_list@), outcomes) && params@ == insert_all(
                    Map::empty(),
                    flat(outcomes),
                ),
    {
        let mut params = ParameterMap::new();
        let ghost mut outcomes: Seq<Seq<Pair>> = Seq::empty();
        let mut i: usize = 0;
        while i < param_list.len()
            invariant
                i <= param_list.len(),
                forall|k: int|
                    0 <= k < param_list@.len() ==> (#[trigger] param_list@[k])@.well_formed(),
                params.wf(),
                outcomes.len() == i,
                forall|k: int|
                    0 <= k < i ==> is_outcome(param_list@[k]@, #[trigger] outcomes[k]),
                params@ == insert_all(Map::empty(), flat(outcomes)),
            decreases param_list.len() - i,
        {
            let entries = param_list[i].gen_entries();
            params.insert_all(&entries);
            proof {
                let drawn = pairs_view(entries@);
                lemma_insert_all_concat(Map::empty(), flat(outcomes), drawn);
                assert(outcomes.push(drawn).drop_last() =~= outcomes);
                outcomes = outcomes.push(drawn);
            }
            i += 1;
        }
        assert(is_run(fields_view(param_list@), outcomes));
        params
    }
}

} // verus!
