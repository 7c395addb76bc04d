//! Definitions as fields and, per row, the values keyed by field.
use vstd::prelude::*;

use crate::definition::field::{field_of, lemma_field_name_of, Field, SpecField};
use crate::dict::Duplicate;
use crate::table::{csv_document, read_csv, rows_fit_header, CsvError};

verus! {

/// A set of variables: each field with its value.  Where a field occurs more than
/// once, its last occurrence is the one that counts.
#[derive(Debug, Clone)]
pub struct VarSet(pub Vec<(Field, String)>);

/// The fields of a table and its rows.
#[derive(Debug)]
pub struct Vars {
    pub fields: Vec<Field>,
    pub values: Vec<VarSet>,
}

/// A named set of variables, such as `job`.
#[derive(Debug)]
pub struct Type {
    /// The name of the type, e.g. job
    pub name: String,
    /// The set of variables belonging to this type
    pub vars: Vars,
}

pub open spec fn varset_view(v: VarSet) -> Seq<(SpecField, Seq<char>)> {
    v.0@.map_values(|p: (Field, String)| (p.0@, p.1@))
}

/// The map that a list of field-value pairs denotes: a later pair for a field replaces
/// an earlier one.
pub open spec fn pairs_map(ps: Seq<(SpecField, Seq<char>)>) -> Map<SpecField, Seq<char>>
    decreases ps.len(),
{
    if ps.len() == 0 {
        Map::empty()
    } else {
        pairs_map(ps.drop_last()).insert(ps.last().0, ps.last().1)
    }
}

impl View for VarSet {
    type V = Map<SpecField, Seq<char>>;

    /// Each field with its value.
    open spec fn view(&self) -> Map<SpecField, Seq<char>> {
        pairs_map(varset_view(*self))
    }
}

pub open spec fn fields_view(v: Seq<Field>) -> Seq<SpecField> {
    v.map_values(|f: Field| f@)
}

/// The variable set of one row: each value with the field of its column.
pub open spec fn spec_varset(h: Seq<Seq<char>>, r: Seq<Seq<char>>) -> Seq<(SpecField, Seq<char>)> {
    Seq::new(r.len(), |n: int| (field_of(h[n]), r[n]))
}

/// `vars` holds the fields of the header `h` and one variable set per row of `rows`.
pub open spec fn vars_of(vars: Vars, h: Seq<Seq<char>>, rows: Seq<Seq<Seq<char>>>) -> bool {
    &&& fields_view(vars.fields@) == h.map_values(|x: Seq<char>| field_of(x))
    &&& vars.values@.len() == rows.len()
    &&& forall|i: int|
        0 <= i < rows.len() ==> #[trigger] varset_view(vars.values@[i]) == spec_varset(h, rows[i])
}

/// With header names all different, the variable set of a row holds exactly the field
/// of each column, with the value in that column.
pub proof fn lemma_varset_fields(h: Seq<Seq<char>>, r: Seq<Seq<char>>)
    requires
        r.len() == h.len(),
        h.no_duplicates(),
    ensures
        forall|j: int|
            0 <= j < h.len() ==> #[trigger] pairs_map(spec_varset(h, r)).contains_key(field_of(h[j]))
                && pairs_map(spec_varset(h, r))[field_of(h[j])] == r[j],
        forall|f: SpecField| #[trigger]
            pairs_map(spec_varset(h, r)).contains_key(f) ==> exists|j: int|
                0 <= j < h.len() && field_of(h[j]) == f,
{
    lemma_varset_prefix(h, r, r.len() as int);
    assert(spec_varset(h, r).take(r.len() as int) =~= spec_varset(h, r));
}

proof fn lemma_varset_prefix(h: Seq<Seq<char>>, r: Seq<Seq<char>>, n: int)
    requires
        r.len() == h.len(),
        h.no_duplicates(),
        0 <= n <= r.len(),
    ensures
        forall|j: int|
            0 <= j < n ==> #[trigger] pairs_map(spec_varset(h, r).take(n)).contains_key(field_of(h[j]))
                && pairs_map(spec_varset(h, r).take(n))[field_of(h[j])] == r[j],
        forall|f: SpecField| #[trigger]
            pairs_map(spec_varset(h, r).take(n)).contains_key(f) ==> exists|j: int|
                0 <= j < n && field_of(h[j]) == f,
    decreases n,
{
    let ps = spec_varset(h, r);
    if n == 0 {
        assert(ps.take(0) =~= Seq::<(SpecField, Seq<char>)>::empty());
    } else {
        lemma_varset_prefix(h, r, n - 1);
        assert(ps.take(n).drop_last() =~= ps.take(n - 1));
        assert(ps.take(n).last() == (field_of(h[n - 1]), r[n - 1]));
        let m = pairs_map(ps.take(n));
        assert(m == pairs_map(ps.take(n - 1)).insert(field_of(h[n - 1]), r[n - 1]));
        assert forall|j: int| 0 <= j < n implies #[trigger] m.contains_key(field_of(h[j])) && m[field_of(
            h[j],
        )] == r[j] by {
            if j < n - 1 {
                assert(h[j] != h[n - 1]);
                lemma_field_name_of(h[j]);
                lemma_field_name_of(h[n - 1]);
                assert(field_of(h[j]) != field_of(h[n - 1]));
            }
        }
        assert forall|f: SpecField| #[trigger] m.contains_key(f) implies exists|j: int|
            0 <= j < n && field_of(h[j]) == f by {
            if f != field_of(h[n - 1]) {
                let j = choose|j: int| 0 <= j < n - 1 && field_of(h[j]) == f;
                assert(0 <= j < n && field_of(h[j]) == f);
            } else {
                assert(0 <= n - 1 < n && field_of(h[n - 1]) == f);
            }
        }
    }
}

impl Duplicate for Field {
    fn duplicate(&self) -> (res: Field) {
        match self {
            Field::Special(s) => Field::Special(*s),
            Field::Plain(s) => Field::Plain(s.clone()),
        }
    }
}

impl Vars {
    /// Reads the fields and rows of a CSV text.
    pub fn from_csv(text: &str) -> (res: Result<Vars, CsvError>)
        ensures
            match res {
                Ok(v) => csv_document(text@) matches Ok((h, rows)) && rows_fit_header(h, rows)
                    && vars_of(v, h, rows),
                Err(e) => csv_document(text@) == Err::<(Seq<Seq<char>>, Seq<Seq<Seq<char>>>), _>(
                    e.message@,
                ),
            },
    {
        match read_csv(text) {
            Err(m) => Err(CsvError { message: m }),
            Ok((h, rows)) => {
                let ghost hv = crate::table::strings_view(h@);
                let ghost rv = crate::table::rows_view(rows@);
                let mut fields: Vec<Field> = Vec::new();
                let mut k: usize = 0;
                while k < h.len()
                    invariant
                        k <= h@.len(),
                        hv == crate::table::strings_view(h@),
                        fields_view(fields@) =~= hv.take(k as int).map_values(
                            |x: Seq<char>| field_of(x),
                        ),
                    decreases h@.len() - k,
                {
                    let f = Field::new(h[k].as_str());
                    let ghost prev = fields@;
                    fields.push(f);
                    assert(fields_view(fields@) =~= fields_view(prev).push(f@));
                    assert(hv.take(k + 1) =~= hv.take(k as int).push(hv[k as int]));
                    k = k + 1;
                }
                assert(hv.take(k as int) =~= hv);
                let mut values: Vec<VarSet> = Vec::new();
                let mut i: usize = 0;
                while i < rows.len()
                    invariant
                        i <= rows@.len(),
                        hv == crate::table::strings_view(h@),
                        rv == crate::table::rows_view(rows@),
                        fields@.len() == h@.len(),
                        fields_view(fields@) == hv.map_values(|x: Seq<char>| field_of(x)),
                        forall|m: int| 0 <= m < rows@.len() ==> #[trigger] rows@[m]@.len() == h@.len(),
                        values@.len() == i,
                        forall|m: int|
                            0 <= m < i ==> #[trigger] varset_view(values@[m]) == spec_varset(hv, rv[m]),
                    decreases rows@.len() - i,
                {
                    let row = &rows[i];
                    assert(row@.len() == h@.len());
                    let mut set: Vec<(Field, String)> = Vec::new();
                    let mut n: usize = 0;
                    while n < row.len()
                        invariant
                            n <= row@.len() == fields@.len(),
                            fields_view(fields@) == hv.map_values(|x: Seq<char>| field_of(x)),
                            hv.len() == fields@.len(),
                            set@.len() == n,
                            forall|m: int|
                                0 <= m < n ==> #[trigger] set@[m].0@ == field_of(hv[m]) && set@[m].1@
                                    == row@[m]@,
                        decreases row@.len() - n,
                    {
                        assert(fields_view(fields@)[n as int] == fields@[n as int]@);
                        set.push((fields[n].duplicate(), row[n].clone()));
                        n = n + 1;
                    }
                    let vs = VarSet(set);
                    assert(varset_view(vs) =~= spec_varset(hv, rv[i as int]));
                    values.push(vs);
                    i = i + 1;
                }
                assert(rows_fit_header(hv, rv)) by {
                    assert forall|m: int| 0 <= m < rows@.len() implies #[trigger] rv[m].len()
                        == hv.len() by {
                        assert(rows@[m]@.len() == h@.len());
                    }
                }
                Ok(Vars { fields, values })
            },
        }
    }

    pub fn new(fields: Vec<Field>, values: Vec<VarSet>) -> (res: Vars)
        ensures
            res.fields@ == fields@,
            res.values@ == values@,
    {
        Vars { fields, values }
    }
}

impl Type {
    /// Reads a type called `name` from a CSV text.
    pub fn from_csv(text: &str, name: String) -> (res: Result<Type, CsvError>)
        ensures
            match res {
                Ok(t) => {
                    &&& t.name == name
                    &&& csv_document(text@) matches Ok((h, rows)) && rows_fit_header(h, rows)
                        && vars_of(t.vars, h, rows)
                },
                Err(e) => csv_document(text@) == Err::<(Seq<Seq<char>>, Seq<Seq<Seq<char>>>), _>(
                    e.message@,
                ),
            },
    {
        match Vars::from_csv(text) {
            Ok(vars) => Ok(Type { name: name, vars }),
            Err(e) => Err(e),
        }
    }

    pub fn new(name: String, vars: Vars) -> (res: Type)
        ensures
            res.name@ == name@,
            res.vars.fields@ == vars.fields@,
            res.vars.values@ == vars.values@,
    {
        Type { name, vars }
    }
}

} // verus!
