//! Tables of records, read from CSV, and the search of a table by `$id`.
use vstd::prelude::*;

use crate::definition::field::id_name;
use crate::dict::{entries_map, Dict, Duplicate};
use crate::error::{PopError, SpecPopError};

verus! {

/// Fields are just strings: the names in a table's header.
pub type Field = String;

/// Values are just strings: the cells of a table's rows.
pub type Value = String;

/// A record maps each field of a row to its value.
pub type Record = Dict<Value>;

/// The abstract value of a record.
pub type SpecRecord = Map<Seq<char>, Seq<char>>;

/// A named list of records.
#[derive(Debug, Clone, PartialEq)]
pub struct Table {
    pub name: String,
    pub records: Vec<Record>,
}

pub struct SpecTable {
    pub name: Seq<char>,
    pub records: Seq<SpecRecord>,
}

pub open spec fn records_view(rs: Seq<Record>) -> Seq<SpecRecord> {
    rs.map_values(|r: Record| r@)
}

impl View for Table {
    type V = SpecTable;

    open spec fn view(&self) -> SpecTable {
        SpecTable { name: self.name@, records: records_view(self.records@) }
    }
}

/// Searches `t.records` from position `i` for the first record whose `$id` is `key`;
/// a record without `$id` met on the way is an error.
pub open spec fn find_id(t: SpecTable, key: Seq<char>, i: int) -> Result<Option<int>, SpecPopError>
    decreases t.records.len() - i,
{
    if i < 0 || i >= t.records.len() {
        Ok(None)
    } else if !t.records[i].contains_key(id_name()) {
        Err(SpecPopError::RecordWithoutId { table: t.name })
    } else if t.records[i][id_name()] == key {
        Ok(Some(i))
    } else {
        find_id(t, key, i + 1)
    }
}

/// The position of the record of `t` whose `$id` is `key`: none in an empty table,
/// an error where the first record has no `$id`, else the first match.
pub open spec fn table_index(t: SpecTable, key: Seq<char>) -> Result<Option<int>, SpecPopError> {
    if t.records.len() == 0 {
        Ok(None)
    } else if !t.records[0].contains_key(id_name()) {
        Err(SpecPopError::TableWithoutId { table: t.name })
    } else {
        find_id(t, key, 0)
    }
}

/// What [`find_id`] finds is the first record with that `$id`.
pub proof fn lemma_find_id(t: SpecTable, key: Seq<char>, i: int)
    requires
        0 <= i,
    ensures
        find_id(t, key, i) matches Ok(Some(j)) ==> {
            &&& i <= j < t.records.len()
            &&& t.records[j].contains_key(id_name())
            &&& t.records[j][id_name()] == key
            &&& forall|m: int|
                i <= m < j ==> t.records[m].contains_key(id_name()) && t.records[m][id_name()]
                    != key
        },
        find_id(t, key, i) matches Ok(None) ==> forall|m: int|
            i <= m < t.records.len() ==> t.records[m].contains_key(id_name())
                && t.records[m][id_name()] != key,
    decreases t.records.len() - i,
{
    if i < t.records.len() && t.records[i].contains_key(id_name()) && t.records[i][id_name()]
        != key {
        lemma_find_id(t, key, i + 1);
    }
}

impl Table {
    pub fn new(name: String, records: Vec<Record>) -> (res: Table)
        ensures
            res.name == name,
            res.records@ == records@,
    {
        Table { name, records }
    }

    /// The position of the record whose `$id` is `key`; see [`table_index`].
    pub fn index_position(&self, key: &String) -> (res: Result<Option<usize>, PopError>)
        ensures
            match res {
                Ok(Some(i)) => table_index(self@, key@) == Ok::<Option<int>, SpecPopError>(
                    Some(i as int),
                ),
                Ok(None) => table_index(self@, key@) == Ok::<Option<int>, SpecPopError>(None),
                Err(e) => table_index(self@, key@) == Err::<Option<int>, SpecPopError>(e@),
            },
    {
        let id = "$id";
        proof {
            reveal_strlit("$id");
            assert(id@ =~= id_name());
        }
        if self.records.len() == 0 {
            return Ok(None);
        }
        if !self.records[0].contains_key(id) {
            return Err(PopError::TableWithoutId { table: self.name.clone() });
        }
        let mut i: usize = 0;
        while i < self.records.len()
            invariant
                i <= self.records@.len(),
                id@ == id_name(),
                table_index(self@, key@) == find_id(self@, key@, i as int),
            decreases self.records@.len() - i,
        {
            match self.records[i].get(id) {
                None => {
                    return Err(PopError::RecordWithoutId { table: self.name.clone() });
                },
                Some(v) => {
                    if *v == *key {
                        return Ok(Some(i));
                    }
                },
            }
            i = i + 1;
        }
        Ok(None)
    }

    /// The first record whose `$id` is `index`, if any.  It is an error when the first
    /// record has no `$id` field, or when a record before the one found has none.
    pub fn index(&self, index: &str) -> (res: Result<Option<&Record>, PopError>)
        ensures
            match res {
                Ok(Some(r)) => table_index(self@, index@) matches Ok(Some(i)) && 0 <= i
                    < self@.records.len() && r@ == self@.records[i],
                Ok(None) => table_index(self@, index@) == Ok::<Option<int>, SpecPopError>(None),
                Err(e) => table_index(self@, index@) == Err::<Option<int>, SpecPopError>(e@),
            },
            res matches Ok(Some(r)) ==> r@.contains_key(id_name()) && r@[id_name()] == index@,
    {
        let key = index.to_owned();
        match self.index_position(&key) {
            Ok(Some(i)) => {
                proof {
                    lemma_find_id(self@, key@, 0);
                }
                Ok(Some(&self.records[i]))
            },
            Ok(None) => Ok(None),
            Err(e) => Err(e),
        }
    }

    /// The records, in order.
    pub fn iter(&self) -> (res: std::slice::Iter<'_, Record>)
        ensures
            vstd::std_specs::iter::IteratorSpec::remaining(&res) == self.records@.as_ref(),
    {
        let s = self.records.as_slice();
        proof {
            broadcast use vstd::std_specs::slice::axiom_spec_slice_iter;
        }
        s.iter()
    }
}

/// What `csv::Reader`, with its default settings, reads from `text`: the header row
/// and the records after it, as strings; or, where it reports an error, the text of
/// that first error.
pub uninterp spec fn csv_document(text: Seq<char>) -> Result<(Seq<Seq<char>>, Seq<Seq<Seq<char>>>), Seq<char>>;

pub open spec fn strings_view(v: Seq<String>) -> Seq<Seq<char>> {
    v.map_values(|s: String| s@)
}

pub open spec fn rows_view(v: Seq<Vec<String>>) -> Seq<Seq<Seq<char>>> {
    v.map_values(|r: Vec<String>| strings_view(r@))
}

/// Reads `text` with `csv::Reader::from_reader`, then `headers` and `records`.
/// Trusted: the result is the header and the records that the reader returns, or the
/// text (`Display`) of its first error, both named [`csv_document`]; and, since such a
/// reader is not `flexible`, every record it returns has as many fields as the header.
#[verifier::external_body]
pub(crate) fn read_csv(text: &str) -> (res: Result<(Vec<String>, Vec<Vec<String>>), String>)
    ensures
        match res {
            Ok((h, rows)) => csv_document(text@) == Ok::<_, Seq<char>>((strings_view(h@), rows_view(rows@))),
            Err(m) => csv_document(text@) == Err::<(Seq<Seq<char>>, Seq<Seq<Seq<char>>>), _>(m@),
        },
        res matches Ok((h, rows)) ==> forall|i: int|
            0 <= i < rows@.len() ==> #[trigger] rows@[i]@.len() == h@.len(),
{
    let mut rdr = csv::Reader::from_reader(text.as_bytes());
    let headers: Vec<String> = rdr.headers().map_err(|e| e.to_string())?.iter().map(|h| h.to_owned()).collect();
    let mut rows: Vec<Vec<String>> = Vec::new();
    for record in rdr.records() {
        rows.push(record.map_err(|e| e.to_string())?.iter().map(|v| v.to_owned()).collect());
    }
    Ok((headers, rows))
}

/// A CSV document that could not be read.
#[derive(Debug, Clone, PartialEq, Eq)]
pub struct CsvError {
    /// What the CSV reader reported.
    pub message: String,
}

/// The record that a row denotes: each value under the field of its column, later
/// columns overriding earlier ones of the same name.
pub open spec fn row_map(h: Seq<Seq<char>>, r: Seq<Seq<char>>) -> SpecRecord
    decreases r.len(),
{
    if r.len() == 0 {
        Map::empty()
    } else {
        row_map(h, r.drop_last()).insert(h[r.len() - 1], r.last())
    }
}

/// Every row has as many fields as the header.
pub open spec fn rows_fit_header(h: Seq<Seq<char>>, rows: Seq<Seq<Seq<char>>>) -> bool {
    forall|i: int| 0 <= i < rows.len() ==> #[trigger] rows[i].len() == h.len()
}

/// A row with as many values as the header has names, all different, is the record
/// that holds each value under the name of its column, and no other field.
pub proof fn lemma_row_map_fields(h: Seq<Seq<char>>, r: Seq<Seq<char>>)
    requires
        r.len() == h.len(),
        h.no_duplicates(),
    ensures
        row_map(h, r).dom() == h.to_set(),
        forall|j: int| 0 <= j < h.len() ==> #[trigger] row_map(h, r)[h[j]] == r[j],
{
    lemma_row_map_prefix(h, r);
    assert(row_map(h, r).dom() =~= h.to_set());
}

proof fn lemma_row_map_prefix(h: Seq<Seq<char>>, r: Seq<Seq<char>>)
    requires
        r.len() <= h.len(),
        h.no_duplicates(),
    ensures
        forall|k: Seq<char>| #[trigger]
            row_map(h, r).contains_key(k) == (exists|j: int| 0 <= j < r.len() && h[j] == k),
        forall|j: int| 0 <= j < r.len() ==> #[trigger] row_map(h, r)[h[j]] == r[j],
    decreases r.len(),
{
    if r.len() > 0 {
        let n = r.len() - 1;
        let p = r.drop_last();
        lemma_row_map_prefix(h, p);
        assert(row_map(h, r) == row_map(h, p).insert(h[n], r[n]));
        assert forall|k: Seq<char>| #[trigger]
            row_map(h, r).contains_key(k) == (exists|j: int| 0 <= j < r.len() && h[j] == k) by {
            if k == h[n] {
                assert(0 <= n < r.len() && h[n] == k);
            } else {
                if row_map(h, p).contains_key(k) {
                    let j = choose|j: int| 0 <= j < p.len() && h[j] == k;
                    assert(0 <= j < r.len() && h[j] == k);
                }
                if exists|j: int| 0 <= j < r.len() && h[j] == k {
                    let j = choose|j: int| 0 <= j < r.len() && h[j] == k;
                    assert(j != n);
                    assert(0 <= j < p.len() && h[j] == k);
                    assert(row_map(h, p).contains_key(k));
                }
            }
        }
        assert forall|j: int| 0 <= j < r.len() implies #[trigger] row_map(h, r)[h[j]] == r[j] by {
            if j < n {
                assert(h[j] != h[n]);
                assert(p[j] == r[j]);
                assert(row_map(h, p)[h[j]] == p[j]);
            }
        }
    }
}

/// The table that a CSV document denotes.
pub open spec fn spec_table_of(name: Seq<char>, h: Seq<Seq<char>>, rows: Seq<Seq<Seq<char>>>) -> SpecTable {
    SpecTable { name, records: rows.map_values(|r: Seq<Seq<char>>| row_map(h, r)) }
}

/// The record of one row.
fn record_of_row(h: &Vec<String>, r: &Vec<String>) -> (res: Record)
    requires
        r@.len() <= h@.len(),
    ensures
        res@ == row_map(strings_view(h@), strings_view(r@)),
{
    let mut es: Vec<(String, String)> = Vec::new();
    let mut n: usize = 0;
    while n < r.len()
        invariant
            n <= r@.len() <= h@.len(),
            es@.len() == n,
            forall|m: int| 0 <= m < n ==> es@[m].0@ == h@[m]@ && es@[m].1@ == r@[m]@,
        decreases r@.len() - n,
    {
        es.push((h[n].clone(), r[n].clone()));
        n = n + 1;
    }
    proof {
        lemma_row_map(es@, strings_view(h@), strings_view(r@));
    }
    Dict { entries: es }
}

proof fn lemma_row_map(es: Seq<(String, String)>, h: Seq<Seq<char>>, r: Seq<Seq<char>>)
    requires
        es.len() == r.len() <= h.len(),
        forall|m: int| 0 <= m < es.len() ==> es[m].0@ == h[m] && es[m].1@ == r[m],
    ensures
        entries_map(es) == row_map(h, r),
    decreases es.len(),
{
    if es.len() > 0 {
        lemma_row_map(es.drop_last(), h, r.drop_last());
    }
}

/// Reads a table named `name` from CSV text: the header names the fields, and each
/// row after it is a record.
pub fn from_csv(name: String, text: &str) -> (res: Result<Table, CsvError>)
    ensures
        match res {
            Ok(t) => csv_document(text@) matches Ok((h, rows)) && rows_fit_header(h, rows)
                && t@ == spec_table_of(name@, h, rows),
            Err(e) => csv_document(text@) == Err::<(Seq<Seq<char>>, Seq<Seq<Seq<char>>>), _>(
                e.message@,
            ),
        },
{
    match read_csv(text) {
        Ok((h, rows)) => {
            let mut records: Vec<Record> = Vec::new();
            let mut i: usize = 0;
            while i < rows.len()
                invariant
                    i <= rows@.len(),
                    records@.len() == i,
                    forall|k: int| 0 <= k < rows@.len() ==> #[trigger] rows@[k]@.len() == h@.len(),
                    forall|k: int|
                        0 <= k < i ==> #[trigger] records@[k]@ == row_map(
                            strings_view(h@),
                            strings_view(rows@[k]@),
                        ),
                decreases rows@.len() - i,
            {
                assert(rows@[i as int]@.len() == h@.len());
                records.push(record_of_row(&h, &rows[i]));
                i = i + 1;
            }
            let t = Table { name, records };
            assert(t@.records =~= spec_table_of(name@, strings_view(h@), rows_view(rows@)).records);
            assert(rows_fit_header(strings_view(h@), rows_view(rows@))) by {
                assert forall|k: int| 0 <= k < rows@.len() implies #[trigger] rows_view(rows@)[k].len()
                    == strings_view(h@).len() by {
                    assert(rows@[k]@.len() == h@.len());
                }
            }
            Ok(t)
        },
        Err(m) => Err(CsvError { message: m }),
    }
}

} // verus!
