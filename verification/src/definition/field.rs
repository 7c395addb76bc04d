//! Field names of variable sets, where a few names are special.
use vstd::prelude::*;

verus! {

/// Special fields have a meaning of their own: `$id` identifies an instance of a
/// type, `$outfile` names the file an output goes to.
#[derive(Clone, Copy, Eq, PartialEq, Hash, Debug)]
pub enum SpecialField {
    Id,
    OutFile,
}

/// A field is either a special field or just a plain string.
#[derive(Clone, Eq, PartialEq, Hash, Debug)]
pub enum Field {
    Special(SpecialField),
    Plain(String),
}

pub enum SpecField {
    Special(SpecialField),
    Plain(Seq<char>),
}

impl View for Field {
    type V = SpecField;

    open spec fn view(&self) -> SpecField {
        match self {
            Field::Special(s) => SpecField::Special(*s),
            Field::Plain(s) => SpecField::Plain(s@),
        }
    }
}

pub open spec fn id_name() -> Seq<char> {
    seq!['$', 'i', 'd']
}

pub open spec fn outfile_name() -> Seq<char> {
    seq!['$', 'o', 'u', 't', 'f', 'i', 'l', 'e']
}

/// The field that a header name denotes.
pub open spec fn field_of(s: Seq<char>) -> SpecField {
    if s == id_name() {
        SpecField::Special(SpecialField::Id)
    } else if s == outfile_name() {
        SpecField::Special(SpecialField::OutFile)
    } else {
        SpecField::Plain(s)
    }
}

pub open spec fn special_name(s: SpecialField) -> Seq<char> {
    match s {
        SpecialField::Id => id_name(),
        SpecialField::OutFile => outfile_name(),
    }
}

/// The name a field is written with.
pub open spec fn field_name(f: SpecField) -> Seq<char> {
    match f {
        SpecField::Special(s) => special_name(s),
        SpecField::Plain(s) => s,
    }
}

/// The name of a field read from a header is that header: `Field::new(s).as_ref() == s`.
pub proof fn lemma_field_name_of(s: Seq<char>)
    ensures
        field_name(field_of(s)) == s,
{
}

impl Field {
    pub fn new(s: &str) -> (res: Field)
        ensures
            res@ == field_of(s@),
    {
        let owned = s.to_owned();
        proof {
            reveal_strlit("$id");
            reveal_strlit("$outfile");
        }
        if owned == "$id".to_owned() {
            assert("$id"@ =~= id_name());
            Field::Special(SpecialField::Id)
        } else if owned == "$outfile".to_owned() {
            assert("$outfile"@ =~= outfile_name());
            Field::Special(SpecialField::OutFile)
        } else {
            assert("$id"@ =~= id_name());
            assert("$outfile"@ =~= outfile_name());
            Field::Plain(owned)
        }
    }

    /// The name this field is written with.
    pub fn as_ref(&self) -> (res: &str)
        ensures
            res@ == field_name(self@),
    {
        match self {
            Field::Special(s) => s.as_ref(),
            Field::Plain(s) => s.as_str(),
        }
    }
}

impl SpecialField {
    /// The name this special field is written with.
    pub fn as_ref(&self) -> (res: &'static str)
        ensures
            res@ == special_name(*self),
    {
        proof {
            reveal_strlit("$id");
            reveal_strlit("$outfile");
        }
        match self {
            SpecialField::Id => {
                assert("$id"@ =~= id_name());
                "$id"
            },
            SpecialField::OutFile => {
                assert("$outfile"@ =~= outfile_name());
                "$outfile"
            },
        }
    }
}

} // verus!
