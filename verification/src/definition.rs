//! Definitions: the `vars` table that populates a template, and the named tables
//! that lookups and loops resolve against.
use vstd::prelude::*;

pub mod field;
pub mod vars;

use crate::definition::field::id_name;
use crate::dict::Dict;
use crate::error::{PopError, SpecPopError};
use crate::expr::eval::{spec_matches, SpecContext, SpecDefs};
use crate::expr::Comparison;
use crate::table::{csv_document, from_csv, spec_table_of, CsvError, Record, SpecRecord, SpecTable, Table};
use crate::template::{ContextIndex, SpecContextIndex};
use crate::expr::parsing::sub_chars;
use crate::text::{chars_of, string_from_chars};

verus! {

/// The tables of a definition.
#[derive(Debug)]
pub struct Definition {
    /// The table whose records populate the template, one output per record.
    pub vars: Table,
    /// Tables by name, for lookups and loops.
    pub defs: Dict<Table>,
}

pub struct SpecDefinition {
    pub vars: SpecTable,
    pub defs: SpecDefs,
}

impl View for Definition {
    type V = SpecDefinition;

    open spec fn view(&self) -> SpecDefinition {
        SpecDefinition { vars: self.vars@, defs: self.defs@ }
    }
}

pub open spec fn vars_name() -> Seq<char> {
    seq!['v', 'a', 'r', 's']
}

/// The table called `name`: `vars` is the vars table, any other name a named table.
pub open spec fn spec_def_table(d: SpecDefinition, name: Seq<char>) -> Option<SpecTable> {
    if name == vars_name() {
        Some(d.vars)
    } else if d.defs.contains_key(name) {
        Some(d.defs[name])
    } else {
        None
    }
}

/// The records of `rs` that `keep` accepts, in order; the first error of `keep` is
/// the result where there is one.
pub open spec fn spec_filter(rs: Seq<SpecRecord>, keep: spec_fn(SpecRecord) -> Result<bool, SpecPopError>) -> Result<Seq<SpecRecord>, SpecPopError>
    decreases rs.len(),
{
    if rs.len() == 0 {
        Ok(Seq::empty())
    } else {
        match keep(rs[0]) {
            Err(e) => Err(e),
            Ok(b) => match spec_filter(rs.drop_first(), keep) {
                Err(e) => Err(e),
                Ok(t) => Ok(if b {
                    seq![rs[0]] + t
                } else {
                    t
                }),
            },
        }
    }
}

/// An `other` clause keeps the records whose `$id` differs from `this_value`.
pub open spec fn keep_other(r: SpecRecord, other_index: Seq<char>, this_value: Seq<char>) -> Result<bool, SpecPopError> {
    if !r.contains_key(id_name()) {
        Err(SpecPopError::MissingIdInOther { index: other_index })
    } else {
        Ok(r[id_name()] != this_value)
    }
}

/// The outcome of a `where` clause tested on a record of the table `table`: an error
/// about a field that does not hold an integer names that table.
pub open spec fn in_table_result(res: Result<bool, SpecPopError>, table: Seq<char>) -> Result<bool, SpecPopError> {
    match res {
        Err(SpecPopError::NotSignedInt { field, table: _ }) => Err(
            SpecPopError::NotSignedInt { field, table: Some(table) },
        ),
        Err(SpecPopError::NotUnsignedInt { field, table: _ }) => Err(
            SpecPopError::NotUnsignedInt { field, table: Some(table) },
        ),
        _ => res,
    }
}

/// A `where` clause keeps the records of the table `table` for which its comparison holds.
pub open spec fn keep_where(
    r: SpecRecord,
    table: Seq<char>,
    w: crate::expr::SpecComparison,
    d: SpecDefinition,
    ctx: SpecContext,
) -> Result<bool, SpecPopError> {
    in_table_result(spec_matches(w, r, d, ctx), table)
}

/// An `other` clause and a `where` clause together keep the records that both keep;
/// the `where` clause is not evaluated for the record that `other` drops.
pub open spec fn keep_other_where(
    r: SpecRecord,
    other_index: Seq<char>,
    this_value: Seq<char>,
    table: Seq<char>,
    w: crate::expr::SpecComparison,
    d: SpecDefinition,
    ctx: SpecContext,
) -> Result<bool, SpecPopError> {
    match keep_other(r, other_index, this_value) {
        Err(e) => Err(e),
        Ok(false) => Ok(false),
        Ok(true) => keep_where(r, table, w, d, ctx),
    }
}

pub open spec fn some_records(r: Result<Seq<SpecRecord>, SpecPopError>) -> Result<Option<Seq<SpecRecord>>, SpecPopError> {
    match r {
        Ok(t) => Ok(Some(t)),
        Err(e) => Err(e),
    }
}

/// The records that a context index selects, for the current record `record`:
/// `None` where the table (or, for `other`, the index field of `record`) is missing.
pub open spec fn spec_index(d: SpecDefinition, ci: SpecContextIndex, record: SpecRecord, ctx: SpecContext) -> Result<Option<Seq<SpecRecord>>, SpecPopError> {
    match ci {
        SpecContextIndex::ValueList(_) => Ok(None),
        SpecContextIndex::Table { table_name } => match spec_def_table(d, table_name) {
            Some(t) => Ok(Some(t.records)),
            None => Ok(None),
        },
        SpecContextIndex::FilteredTableWhere { table_name, where_clause } => match spec_def_table(
            d,
            table_name,
        ) {
            Some(t) => some_records(
                spec_filter(
                    t.records,
                    |r: SpecRecord| keep_where(r, table_name, where_clause, d, ctx),
                ),
            ),
            None => Ok(None),
        },
        SpecContextIndex::FilteredTableOther { table_name, index } => {
            let oi = match index {
                Some(i) => i,
                None => table_name,
            };
            if !record.contains_key(oi) {
                Ok(None)
            } else {
                match spec_def_table(d, table_name) {
                    Some(t) => some_records(
                        spec_filter(t.records, |r: SpecRecord| keep_other(r, oi, record[oi])),
                    ),
                    None => Ok(None),
                }
            }
        },
        SpecContextIndex::FilteredTableOtherWhere { table_name, where_clause, index } => {
            let oi = match index {
                Some(i) => i,
                None => table_name,
            };
            if !record.contains_key(oi) {
                Ok(None)
            } else {
                match spec_def_table(d, table_name) {
                    Some(t) => some_records(
                        spec_filter(
                            t.records,
                            |r: SpecRecord|
                                keep_other_where(
                                    r,
                                    oi,
                                    record[oi],
                                    table_name,
                                    where_clause,
                                    d,
                                    ctx,
                                ),
                        ),
                    ),
                    None => Ok(None),
                }
            }
        },
    }
}

/// A filter succeeds exactly where its test succeeds on every record, and then it
/// keeps exactly the records that pass the test.
pub proof fn lemma_filter_members(rs: Seq<SpecRecord>, keep: spec_fn(SpecRecord) -> Result<bool, SpecPopError>)
    ensures
        (spec_filter(rs, keep) is Ok) == (forall|i: int| 0 <= i < rs.len() ==> #[trigger] keep(rs[i]) is Ok),
        spec_filter(rs, keep) matches Ok(out) ==> forall|r: SpecRecord|
            #[trigger] out.contains(r) == (rs.contains(r) && keep(r) == Ok::<bool, SpecPopError>(true)),
    decreases rs.len(),
{
    if rs.len() > 0 {
        let tail = rs.drop_first();
        lemma_filter_members(tail, keep);
        assert forall|r: SpecRecord| #[trigger] rs.contains(r) == (r == rs[0] || tail.contains(r)) by {
            if rs.contains(r) {
                let i = choose|i: int| 0 <= i < rs.len() && rs[i] == r;
                if i > 0 {
                    assert(tail[i - 1] == r);
                }
            }
            if tail.contains(r) {
                let i = choose|i: int| 0 <= i < tail.len() && tail[i] == r;
                assert(rs[i + 1] == r);
            }
        }
        if (forall|i: int| 0 <= i < rs.len() ==> #[trigger] keep(rs[i]) is Ok) {
            assert forall|i: int| 0 <= i < tail.len() implies #[trigger] keep(tail[i]) is Ok by {
                assert(tail[i] == rs[i + 1]);
            }
        } else {
            let i = choose|i: int| 0 <= i < rs.len() && !(#[trigger] keep(rs[i]) is Ok);
            if i > 0 {
                assert(tail[i - 1] == rs[i]);
            }
        }
        if let Ok(out) = spec_filter(rs, keep) {
            let t = spec_filter(tail, keep)->Ok_0;
            assert forall|r: SpecRecord| #[trigger] out.contains(r) == (rs.contains(r) && keep(r) == Ok::<bool, SpecPopError>(true)) by {
                if keep(rs[0]) == Ok::<bool, SpecPopError>(true) {
                    assert(out == seq![rs[0]] + t);
                    if out.contains(r) {
                        let i = choose|i: int| 0 <= i < out.len() && out[i] == r;
                        if i > 0 {
                            assert(t[i - 1] == r);
                        }
                    }
                    if t.contains(r) {
                        let i = choose|i: int| 0 <= i < t.len() && t[i] == r;
                        assert(out[i + 1] == r);
                    }
                    if r == rs[0] {
                        assert(out[0] == r);
                    }
                }
            }
        }
    }
}

/// A `for other` loop goes over exactly the records of its table whose `$id`
/// differs from the current record's value of the index field (the table name
/// where no index is given), and every record of that table must have an `$id`.
pub proof fn lemma_other_loop(
    d: SpecDefinition,
    table_name: Seq<char>,
    index: Option<Seq<char>>,
    record: SpecRecord,
    ctx: SpecContext,
)
    requires
        spec_index(d, SpecContextIndex::FilteredTableOther { table_name, index }, record, ctx) is Ok,
        spec_index(d, SpecContextIndex::FilteredTableOther { table_name, index }, record, ctx)->Ok_0 is Some,
    ensures
        ({
            let oi = match index {
                Some(i) => i,
                None => table_name,
            };
            let out = spec_index(d, SpecContextIndex::FilteredTableOther { table_name, index }, record, ctx)->Ok_0->Some_0;
            let t = spec_def_table(d, table_name)->Some_0;
            &&& record.contains_key(oi)
            &&& spec_def_table(d, table_name) is Some
            &&& forall|r: SpecRecord| #[trigger]
                t.records.contains(r) ==> r.contains_key(id_name())
            &&& forall|r: SpecRecord| #[trigger]
                out.contains(r) == (t.records.contains(r) && r[id_name()] != record[oi])
        }),
{
    let oi = match index {
        Some(i) => i,
        None => table_name,
    };
    let t = spec_def_table(d, table_name)->Some_0;
    let keep = |r: SpecRecord| keep_other(r, oi, record[oi]);
    lemma_filter_members(t.records, keep);
    assert forall|r: SpecRecord| #[trigger] t.records.contains(r) implies r.contains_key(id_name()) by {
        let i = choose|i: int| 0 <= i < t.records.len() && t.records[i] == r;
        assert(keep(t.records[i]) is Ok);
    }
}

/// A `for other ... where` loop goes over exactly the records of its table whose `$id`
/// differs from the current record's value of the index field (the explicit index
/// where one is given, else the table name) and for which the comparison holds; every
/// record of the table must have an `$id`.
pub proof fn lemma_other_where_loop(
    d: SpecDefinition,
    table_name: Seq<char>,
    w: crate::expr::SpecComparison,
    index: Option<Seq<char>>,
    record: SpecRecord,
    ctx: SpecContext,
)
    requires
        spec_index(
            d,
            SpecContextIndex::FilteredTableOtherWhere { table_name, where_clause: w, index },
            record,
            ctx,
        ) matches Ok(Some(_)),
    ensures
        ({
            let oi = match index {
                Some(i) => i,
                None => table_name,
            };
            let out = spec_index(
                d,
                SpecContextIndex::FilteredTableOtherWhere { table_name, where_clause: w, index },
                record,
                ctx,
            )->Ok_0->Some_0;
            let t = spec_def_table(d, table_name)->Some_0;
            &&& record.contains_key(oi)
            &&& spec_def_table(d, table_name) is Some
            &&& forall|r: SpecRecord| #[trigger]
                t.records.contains(r) ==> r.contains_key(id_name())
            &&& forall|r: SpecRecord| #[trigger]
                out.contains(r) == (t.records.contains(r) && r[id_name()] != record[oi]
                    && spec_matches(w, r, d, ctx) == Ok::<bool, SpecPopError>(true))
        }),
{
    let oi = match index {
        Some(i) => i,
        None => table_name,
    };
    let t = spec_def_table(d, table_name)->Some_0;
    let keep = |r: SpecRecord|
        keep_other_where(r, oi, record[oi], table_name, w, d, ctx);
    lemma_filter_members(t.records, keep);
    assert forall|r: SpecRecord| #[trigger] t.records.contains(r) implies r.contains_key(id_name()) by {
        let i = choose|i: int| 0 <= i < t.records.len() && t.records[i] == r;
        assert(keep(t.records[i]) is Ok);
    }
    let out = spec_index(
        d,
        SpecContextIndex::FilteredTableOtherWhere { table_name, where_clause: w, index },
        record,
        ctx,
    )->Ok_0->Some_0;
    assert forall|r: SpecRecord| #[trigger] out.contains(r) == (t.records.contains(r) && r[id_name()]
        != record[oi] && spec_matches(w, r, d, ctx) == Ok::<bool, SpecPopError>(true)) by {
        assert(out.contains(r) == (t.records.contains(r) && keep(r) == Ok::<bool, SpecPopError>(true)));
        if t.records.contains(r) {
            let i = choose|i: int| 0 <= i < t.records.len() && t.records[i] == r;
            assert(keep(t.records[i]) is Ok);
        }
    }
}

/// A `for ... where` loop goes over exactly the records of its table for which the
/// comparison holds, and the comparison must evaluate on each of them.
pub proof fn lemma_where_loop(
    d: SpecDefinition,
    table_name: Seq<char>,
    w: crate::expr::SpecComparison,
    record: SpecRecord,
    ctx: SpecContext,
)
    requires
        spec_index(d, SpecContextIndex::FilteredTableWhere { table_name, where_clause: w }, record, ctx) is Ok,
        spec_index(d, SpecContextIndex::FilteredTableWhere { table_name, where_clause: w }, record, ctx)->Ok_0 is Some,
    ensures
        ({
            let out = spec_index(d, SpecContextIndex::FilteredTableWhere { table_name, where_clause: w }, record, ctx)->Ok_0->Some_0;
            let t = spec_def_table(d, table_name)->Some_0;
            &&& spec_def_table(d, table_name) is Some
            &&& forall|r: SpecRecord| #[trigger]
                out.contains(r) == (t.records.contains(r) && spec_matches(w, r, d, ctx) == Ok::<bool, SpecPopError>(true))
        }),
{
    let t = spec_def_table(d, table_name)->Some_0;
    lemma_filter_members(t.records, |r: SpecRecord| keep_where(r, table_name, w, d, ctx));
}

pub open spec fn refs_view(rs: Seq<&Record>) -> Seq<SpecRecord> {
    rs.map_values(|r: &Record| r@)
}

/// Which filter a context index applies.
enum Keep<'a> {
    Where(&'a String, &'a Comparison),
    Other(&'a String, &'a String),
    OtherWhere(&'a String, &'a String, &'a String, &'a Comparison),
}

/// Names the table `table` in an error about a field that does not hold an integer.
pub(crate) fn in_table(res: Result<bool, PopError>, table: &String) -> (out: Result<bool, PopError>)
    ensures
        match out {
            Ok(b) => in_table_result(result_view(res), table@) == Ok::<bool, SpecPopError>(b),
            Err(e) => in_table_result(result_view(res), table@) == Err::<bool, SpecPopError>(e@),
        },
{
    match res {
        Err(PopError::NotSignedInt { field, table: _ }) => Err(
            PopError::NotSignedInt { field, table: Some(table.clone()) },
        ),
        Err(PopError::NotUnsignedInt { field, table: _ }) => Err(
            PopError::NotUnsignedInt { field, table: Some(table.clone()) },
        ),
        _ => res,
    }
}

pub open spec fn result_view(res: Result<bool, PopError>) -> Result<bool, SpecPopError> {
    match res {
        Ok(b) => Ok(b),
        Err(e) => Err(e@),
    }
}

impl<'a> Definition {
    /// The table called `index`: `vars` is the vars table, any other name a named table.
    pub fn get(&'a self, index: &str) -> (res: Option<&'a Table>)
        ensures
            match res {
                Some(t) => spec_def_table(self@, index@) == Some(t@),
                None => spec_def_table(self@, index@) is None,
            },
    {
        let name = index.to_owned();
        let vars = "vars".to_owned();
        proof {
            reveal_strlit("vars");
            assert("vars"@ =~= vars_name());
        }
        if name == vars {
            Some(&self.vars)
        } else {
            self.defs.get(index)
        }
    }

    fn keeps(&self, keep: &Keep, r: &Record, ctx: &Dict<Record>) -> (res: Result<bool, PopError>)
        ensures
            match res {
                Ok(b) => self.spec_keep(*keep, ctx@)(r@) == Ok::<bool, SpecPopError>(b),
                Err(e) => self.spec_keep(*keep, ctx@)(r@) == Err::<bool, SpecPopError>(e@),
            },
    {
        let id = "$id";
        proof {
            reveal_strlit("$id");
            assert(id@ =~= id_name());
        }
        match keep {
            Keep::Where(table, w) => in_table(w.matches(r, self, ctx), table),
            Keep::Other(oi, this_value) => match r.get(id) {
                None => Err(PopError::MissingIdInOther { index: (*oi).clone() }),
                Some(v) => Ok(!(*v == **this_value)),
            },
            Keep::OtherWhere(oi, this_value, table, w) => match r.get(id) {
                None => Err(PopError::MissingIdInOther { index: (*oi).clone() }),
                Some(v) => if *v == **this_value {
                    Ok(false)
                } else {
                    in_table(w.matches(r, self, ctx), table)
                },
            },
        }
    }

    spec fn spec_keep(&self, keep: Keep, ctx: SpecContext) -> spec_fn(SpecRecord) -> Result<bool, SpecPopError> {
        match keep {
            Keep::Where(t, w) => |r: SpecRecord| keep_where(r, t@, w@, self@, ctx),
            Keep::Other(oi, v) => |r: SpecRecord| keep_other(r, oi@, v@),
            Keep::OtherWhere(oi, v, t, w) => |r: SpecRecord|
                keep_other_where(r, oi@, v@, t@, w@, self@, ctx),
        }
    }

    fn filter(&'a self, t: &'a Table, keep: &Keep, ctx: &Dict<Record>) -> (res: Result<
        Vec<&'a Record>,
        PopError,
    >)
        ensures
            match res {
                Ok(v) => spec_filter(t@.records, self.spec_keep(*keep, ctx@)) == Ok::<
                    Seq<SpecRecord>,
                    SpecPopError,
                >(refs_view(v@)),
                Err(e) => spec_filter(t@.records, self.spec_keep(*keep, ctx@)) == Err::<
                    Seq<SpecRecord>,
                    SpecPopError,
                >(e@),
            },
    {
        let ghost f = self.spec_keep(*keep, ctx@);
        let mut out: Vec<&'a Record> = Vec::new();
        let mut i: usize = 0;
        assert(t@.records.skip(0) =~= t@.records);
        while i < t.records.len()
            invariant
                i <= t.records@.len(),
                f == self.spec_keep(*keep, ctx@),
                spec_filter(t@.records, f) == match spec_filter(t@.records.skip(i as int), f) {
                    Ok(rest) => Ok::<Seq<SpecRecord>, SpecPopError>(refs_view(out@) + rest),
                    Err(e) => Err(e),
                },
            decreases t.records@.len() - i,
        {
            let r = &t.records[i];
            let ghost tail = t@.records.skip(i as int);
            assert(tail[0] == r@);
            assert(tail.drop_first() =~= t@.records.skip(i + 1));
            match self.keeps(keep, r, ctx) {
                Err(e) => {
                    return Err(e);
                },
                Ok(b) => {
                    if b {
                        let ghost prev = out@;
                        out.push(r);
                        assert(refs_view(out@) =~= refs_view(prev).push(r@));
                        assert(forall|rest: Seq<SpecRecord>|
                            refs_view(prev) + (seq![r@] + rest) =~= refs_view(out@) + rest);
                    }
                },
            }
            i = i + 1;
        }
        assert(t@.records.skip(i as int) =~= Seq::<SpecRecord>::empty());
        assert(refs_view(out@) + Seq::<SpecRecord>::empty() =~= refs_view(out@));
        Ok(out)
    }

    /// The records that `index` selects for the current record `record` (see
    /// [`spec_index`]); `None` where the table, or the index field of an `other`
    /// clause, is missing.
    pub fn index(&'a self, index: &'a ContextIndex, record: &'a Record, ctx: &Dict<Record>) -> (res:
        Result<Option<Vec<&'a Record>>, PopError>)
        ensures
            match res {
                Ok(Some(v)) => spec_index(self@, index@, record@, ctx@) == Ok::<
                    Option<Seq<SpecRecord>>,
                    SpecPopError,
                >(Some(refs_view(v@))),
                Ok(None) => spec_index(self@, index@, record@, ctx@) == Ok::<
                    Option<Seq<SpecRecord>>,
                    SpecPopError,
                >(None),
                Err(e) => spec_index(self@, index@, record@, ctx@) == Err::<
                    Option<Seq<SpecRecord>>,
                    SpecPopError,
                >(e@),
            },
    {
        match index {
            ContextIndex::ValueList(_) => Ok(None),
            ContextIndex::Table { table_name } => match self.get(table_name.as_str()) {
                Some(t) => {
                    let mut out: Vec<&'a Record> = Vec::new();
                    let mut i: usize = 0;
                    while i < t.records.len()
                        invariant
                            i <= t.records@.len(),
                            refs_view(out@) =~= t@.records.take(i as int),
                        decreases t.records@.len() - i,
                    {
                        let ghost prev = out@;
                        out.push(&t.records[i]);
                        assert(refs_view(out@) =~= refs_view(prev).push(t.records@[i as int]@));
                        assert(t@.records.take(i + 1) =~= t@.records.take(i as int).push(
                            t@.records[i as int],
                        ));
                        i = i + 1;
                    }
                    assert(t@.records.take(i as int) =~= t@.records);
                    Ok(Some(out))
                },
                None => Ok(None),
            },
            ContextIndex::FilteredTableWhere { table_name, where_clause } => match self.get(
                table_name.as_str(),
            ) {
                Some(t) => {
                    let keep = Keep::Where(table_name, where_clause);
                    assert(self.spec_keep(keep, ctx@) == (|r: SpecRecord|
                        keep_where(r, table_name@, where_clause@, self@, ctx@)));
                    match self.filter(t, &keep, ctx) {
                        Ok(v) => Ok(Some(v)),
                        Err(e) => Err(e),
                    }
                },
                None => Ok(None),
            },
            ContextIndex::FilteredTableOther { table_name, index } => {
                let oi: &String = match index {
                    Some(i) => i,
                    None => table_name,
                };
                let this_value = match record.get(oi.as_str()) {
                    Some(v) => v,
                    None => {
                        return Ok(None);
                    },
                };
                match self.get(table_name.as_str()) {
                    Some(t) => {
                        let keep = Keep::Other(oi, this_value);
                        assert(self.spec_keep(keep, ctx@) == (|r: SpecRecord|
                            keep_other(r, oi@, record@[oi@])));
                        match self.filter(t, &keep, ctx) {
                            Ok(v) => Ok(Some(v)),
                            Err(e) => Err(e),
                        }
                    },
                    None => Ok(None),
                }
            },
            ContextIndex::FilteredTableOtherWhere { table_name, where_clause, index } => {
                let oi: &String = match index {
                    Some(i) => i,
                    None => table_name,
                };
                let this_value = match record.get(oi.as_str()) {
                    Some(v) => v,
                    None => {
                        return Ok(None);
                    },
                };
                match self.get(table_name.as_str()) {
                    Some(t) => {
                        let keep = Keep::OtherWhere(oi, this_value, table_name, where_clause);
                        assert(self.spec_keep(keep, ctx@) == (|r: SpecRecord|
                            keep_other_where(
                                r,
                                oi@,
                                record@[oi@],
                                table_name@,
                                where_clause@,
                                self@,
                                ctx@,
                            )));
                        match self.filter(t, &keep, ctx) {
                            Ok(v) => Ok(Some(v)),
                            Err(e) => Err(e),
                        }
                    },
                    None => Ok(None),
                }
            },
        }
    }
}

/// The named tables that a list of `(name, csv)` pairs denotes, later names
/// overriding earlier ones; where a text is not CSV, the reader's error for the first
/// such text.
pub open spec fn spec_defs_from(ds: Seq<(Seq<char>, Seq<char>)>) -> Result<SpecDefs, Seq<char>>
    decreases ds.len(),
{
    if ds.len() == 0 {
        Ok(Map::empty())
    } else {
        match spec_defs_from(ds.drop_last()) {
            Err(m) => Err(m),
            Ok(m) => match csv_document(ds.last().1) {
                Err(e) => Err(e),
                Ok((h, rows)) => Ok(m.insert(ds.last().0, spec_table_of(ds.last().0, h, rows))),
            },
        }
    }
}

/// The definition that CSV texts denote: `vars` and the named tables; where a text is
/// not CSV, the reader's error for `vars` if it is the one, else for the first named
/// table that is not.
pub open spec fn spec_from_csv_strings(vars: Seq<char>, ds: Seq<(Seq<char>, Seq<char>)>) -> Result<SpecDefinition, Seq<char>> {
    match csv_document(vars) {
        Err(e) => Err(e),
        Ok((h, rows)) => match spec_defs_from(ds) {
            Err(e) => Err(e),
            Ok(m) => Ok(SpecDefinition { vars: spec_table_of(vars_name(), h, rows), defs: m }),
        },
    }
}

pub open spec fn pairs_view(ds: Seq<(String, String)>) -> Seq<(Seq<char>, Seq<char>)> {
    ds.map_values(|p: (String, String)| (p.0@, p.1@))
}

impl Definition {
    /// Reads a definition from CSV texts: `vars` is required, and each of `defs` is a
    /// table with its name.
    pub fn from_csv_strings(vars: String, defs: &[(String, String)]) -> (res: Result<Definition, CsvError>)
        ensures
            match res {
                Ok(d) => spec_from_csv_strings(vars@, pairs_view(defs@)) == Ok::<_, Seq<char>>(d@),
                Err(e) => spec_from_csv_strings(vars@, pairs_view(defs@)) == Err::<SpecDefinition, _>(
                    e.message@,
                ),
            },
    {
        let name = "vars".to_owned();
        proof {
            reveal_strlit("vars");
            assert("vars"@ =~= vars_name());
        }
        let vars_table = match from_csv(name, vars.as_str()) {
            Ok(t) => t,
            Err(e) => {
                return Err(e);
            },
        };
        let ghost pv = pairs_view(defs@);
        let mut tables: Dict<Table> = Dict::new();
        let mut k: usize = 0;
        assert(pv.take(0) =~= Seq::<(Seq<char>, Seq<char>)>::empty());
        while k < defs.len()
            invariant
                k <= defs@.len(),
                pv == pairs_view(defs@),
                csv_document(vars@) is Ok,
                spec_defs_from(pv.take(k as int)) == Ok::<_, Seq<char>>(tables@),
            decreases defs@.len() - k,
        {
            let (n, text) = &defs[k];
            assert(pv.take(k + 1).drop_last() =~= pv.take(k as int));
            assert(pv.take(k + 1).last() == (n@, text@));
            match from_csv(n.clone(), text.as_str()) {
                Ok(t) => {
                    tables.insert(n.clone(), t);
                },
                Err(e) => {
                    proof {
                        lemma_defs_from_none(pv, (k + 1) as int);
                    }
                    return Err(e);
                },
            }
            k = k + 1;
        }
        assert(pv.take(k as int) =~= pv);
        Ok(Definition { vars: vars_table, defs: tables })
    }
}

/// Where the first `.` at or after position `k` of `s` stands; the length of `s` where
/// there is none.
pub open spec fn first_dot_from(s: Seq<char>, k: int) -> int
    decreases s.len() - k,
{
    if k >= s.len() {
        s.len() as int
    } else if s[k] == '.' {
        k
    } else {
        first_dot_from(s, k + 1)
    }
}

/// The name a table takes from the name of its file: the part before the first `.`
/// that is not the name's first character (`country.csv` gives `country`, `.hidden.csv`
/// gives `.hidden`); a name without such a `.`, and `..`, are kept whole.
pub open spec fn spec_file_prefix(s: Seq<char>) -> Seq<char> {
    if s == seq!['.', '.'] {
        s
    } else {
        s.subrange(0, first_dot_from(s, 1))
    }
}

proof fn lemma_first_dot_bounds(s: Seq<char>, k: int)
    requires
        0 <= k,
    ensures
        k <= s.len() ==> k <= first_dot_from(s, k) <= s.len(),
        k > s.len() ==> first_dot_from(s, k) == s.len(),
    decreases s.len() - k,
{
    if k < s.len() && s[k] != '.' {
        lemma_first_dot_bounds(s, k + 1);
    }
}

/// The name of the table read from the file called `file_name`; see [`spec_file_prefix`].
pub fn file_prefix(file_name: &str) -> (res: String)
    ensures
        res@ == spec_file_prefix(file_name@),
{
    let s = chars_of(file_name);
    if s.len() == 2 && s[0] == '.' && s[1] == '.' {
        assert(s@ =~= seq!['.', '.']);
        return file_name.to_owned();
    }
    proof {
        if s@ == seq!['.', '.'] {
            assert(s@[0] == '.' && s@[1] == '.');
        }
        lemma_first_dot_bounds(s@, 1);
    }
    if s.len() == 0 {
        assert(s@.subrange(0, first_dot_from(s@, 1)) =~= Seq::<char>::empty());
        return String::new();
    }
    let mut k: usize = 1;
    while k < s.len() && s[k] != '.'
        invariant
            1 <= k <= s@.len(),
            first_dot_from(s@, k as int) == first_dot_from(s@, 1),
        decreases s@.len() - k,
    {
        k = k + 1;
    }
    string_from_chars(&sub_chars(&s, 0, k))
}

/// Once a prefix of the pairs fails, the whole list fails with the same error.
proof fn lemma_defs_from_none(ds: Seq<(Seq<char>, Seq<char>)>, k: int)
    requires
        0 <= k <= ds.len(),
        spec_defs_from(ds.take(k)) is Err,
    ensures
        spec_defs_from(ds) == spec_defs_from(ds.take(k)),
    decreases ds.len() - k,
{
    if k < ds.len() {
        assert(ds.take(k + 1).drop_last() =~= ds.take(k));
        lemma_defs_from_none(ds, k + 1);
    } else {
        assert(ds.take(k) =~= ds);
    }
}

} // verus!
