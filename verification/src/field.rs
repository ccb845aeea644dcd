//! The fields of a form, as the configuration describes them.

use vstd::prelude::*;

verus! {

/// One field of a form and how its value is drawn.
#[derive(Debug, Clone, PartialEq)]
pub enum Parameter {
    /// A random e-mail address at one of the given domains.
    Email { name: String, domains: Vec<String> },
    /// Either `Yes` or `No`.
    YesNo { name: String },
    /// A telephone number written `(AAA) MMM-EEEE`.
    CellPhone { name: String },
    /// Exactly one of the given pairs.
    ChooseAny { options: Vec<(String, String)> },
    /// Exactly `n` of the given pairs.
    ChooseN { n: usize, kvps: Vec<(String, String)> },
    /// A date written `MM/DD/YYYY`, with its year between `min` and `max`.
    Date { name: String, min: usize, max: usize },
    /// Each pair is a parameter of its own; a random subset is sent.
    CheckBoxes { kvps: Vec<(String, String)> },
    /// A random string of at most `max_len` characters.
    String { name: String, max_len: usize },
    /// Either absent or empty.
    OptionalString { name: String },
    /// Always the given value.
    Static { name: String, val: String },
    /// Two random tokens of at most `max_len` characters, joined by a space.
    Name { name: String, max_len: usize },
}

/// What a [`Parameter`] holds, as mathematical values.
pub ghost enum FieldSpec {
    Email { name: Seq<char>, domains: Seq<Seq<char>> },
    YesNo { name: Seq<char> },
    CellPhone { name: Seq<char> },
    ChooseAny { options: Seq<(Seq<char>, Seq<char>)> },
    ChooseN { n: nat, kvps: Seq<(Seq<char>, Seq<char>)> },
    Date { name: Seq<char>, min: nat, max: nat },
    CheckBoxes { kvps: Seq<(Seq<char>, Seq<char>)> },
    String { name: Seq<char>, max_len: nat },
    OptionalString { name: Seq<char> },
    Static { name: Seq<char>, val: Seq<char> },
    Name { name: Seq<char>, max_len: nat },
}

/// The texts of a list of strings.
pub open spec fn strings_view(list: Seq<String>) -> Seq<Seq<char>> {
    Seq::new(list.len(), |i: int| list[i]@)
}

/// The texts of a list of pairs of strings.
pub open spec fn pairs_view(list: Seq<(String, String)>) -> Seq<(Seq<char>, Seq<char>)> {
    Seq::new(list.len(), |i: int| (list[i].0@, list[i].1@))
}

/// The models of a list of fields.
pub open spec fn fields_view(list: Seq<Parameter>) -> Seq<FieldSpec> {
    Seq::new(list.len(), |i: int| list[i]@)
}

impl View for Parameter {
    type V = FieldSpec;

    open spec fn view(&self) -> FieldSpec {
        match *self {
            Parameter::Email { name, domains } => FieldSpec::Email {
                name: name@,
                domains: strings_view(domains@),
            },
            Parameter::YesNo { name } => FieldSpec::YesNo { name: name@ },
            Parameter::CellPhone { name } => FieldSpec::CellPhone { name: name@ },
            Parameter::ChooseAny { options } => FieldSpec::ChooseAny {
                options: pairs_view(options@),
            },
            Parameter::ChooseN { n, kvps } => FieldSpec::ChooseN {
                n: n as nat,
                kvps: pairs_view(kvps@),
            },
            Parameter::Date { name, min, max } => FieldSpec::Date {
                name: name@,
                min: min as nat,
                max: max as nat,
            },
            Parameter::CheckBoxes { kvps } => FieldSpec::CheckBoxes { kvps: pairs_view(kvps@) },
            Parameter::String { name, max_len } => FieldSpec::String {
                name: name@,
                max_len: max_len as nat,
            },
            Parameter::OptionalString { name } => FieldSpec::OptionalString { name: name@ },
            Parameter::Static { name, val } => FieldSpec::Static { name: name@, val: val@ },
            Parameter::Name { name, max_len } => FieldSpec::Name {
                name: name@,
                max_len: max_len as nat,
            },
        }
    }
}

impl FieldSpec {
    /// Whether values can be drawn for this field: an address needs a
    /// domain, `n` pairs can only be chosen among at least `n`, a range of
    /// years is not empty, and a random string has room for a character.
    pub open spec fn well_formed(self) -> bool {
        match self {
            FieldSpec::Email { name, domains } => domains.len() >= 1,
            FieldSpec::ChooseN { n, kvps } => n <= kvps.len(),
            FieldSpec::Date { name, min, max } => min <= max,
            FieldSpec::String { name, max_len } => max_len >= 1,
            FieldSpec::Name { name, max_len } => max_len >= 1,
            _ => true,
        }
    }
}

impl Parameter {
    /// Whether values can be drawn for this field.
    pub fn is_well_formed(&self) -> (ok: bool)
        ensures
            ok == self@.well_formed(),
    {
        match self {
            Parameter::Email { name, domains } => domains.len() >= 1,
            Parameter::ChooseN { n, kvps } => *n <= kvps.len(),
            Parameter::Date { name, min, max } => *min <= *max,
            Parameter::String { name, max_len } => *max_len >= 1,
            Parameter::Name { name, max_len } => *max_len >= 1,
            _ => true,
        }
    }
}

} // verus!
