//! Populates text templates with rows of variables.
//!
//! A template is plain text with `{{ expressions }}` that expand to values and
//! `{@ blocks @}` that loop over tables or test a condition.  A [`Definition`]
//! holds the `vars` table, one row per output, and the named tables that
//! expressions and loops look records up in.
use vstd::prelude::*;

pub mod definition;
pub mod dict;
pub mod error;
pub mod expr;
pub mod table;
pub mod template;
pub mod text;

pub use definition::Definition;
pub use error::PopError;
pub use expr::parsing::ParseError;
pub use expr::{Context, Expand, Expr, Lookup};
pub use table::{Record, Table};
pub use template::Template;

use crate::error::SpecPopError;
use crate::expr::parsing::wf_input;
use crate::table::SpecRecord;
use crate::template::{spec_compile, spec_pop_nodes, SpecCompiledNode};
use crate::definition::SpecDefinition;

verus! {

/// Why populating a template failed.
#[derive(Debug, Clone, PartialEq, Eq)]
pub enum TemplateError {
    /// The template does not parse.
    Parse(ParseError),
    /// Populating the template with row `row` (counted from 1) of `vars` failed.
    Row { row: usize, error: PopError },
}

/// The outputs for the rows `rows`, in order; on failure, the position of the
/// first row that fails, with its error.
pub open spec fn spec_pop_rows(t: Seq<SpecCompiledNode>, rows: Seq<SpecRecord>, d: SpecDefinition) -> Result<Seq<Seq<char>>, (int, SpecPopError)>
    decreases rows.len(),
{
    if rows.len() == 0 {
        Ok(Seq::empty())
    } else {
        match spec_pop_rows(t, rows.drop_last(), d) {
            Err(e) => Err(e),
            Ok(out) => match spec_pop_nodes(t, rows.last(), d, Map::empty()) {
                Ok(s) => Ok(out.push(s)),
                Err(e) => Err((rows.len() - 1, e)),
            },
        }
    }
}

pub open spec fn strings_view(v: Seq<String>) -> Seq<Seq<char>> {
    v.map_values(|s: String| s@)
}

/// Populates the template `input` once for each record of `def.vars`, in order.
pub fn pop(input: &str, def: Definition) -> (res: Result<Vec<String>, TemplateError>)
    requires
        wf_input(input@),
    ensures
        match res {
            Ok(out) => spec_compile(input@) matches Some(t) && spec_pop_rows(t, def@.vars.records, def@)
                == Ok::<Seq<Seq<char>>, (int, SpecPopError)>(strings_view(out@)),
            Err(TemplateError::Parse(_)) => spec_compile(input@) is None,
            Err(TemplateError::Row { row, error }) => spec_compile(input@) matches Some(t) && spec_pop_rows(
                t,
                def@.vars.records,
                def@,
            ) == Err::<Seq<Seq<char>>, (int, SpecPopError)>((row - 1, error@)),
        },
        res matches Ok(out) ==> out@.len() == def.vars.records@.len(),
{
    let template = match Template::compile(input) {
        Ok(t) => t,
        Err(e) => {
            return Err(TemplateError::Parse(e));
        },
    };
    let ghost t = template@;
    let ghost rows = def@.vars.records;
    let mut output: Vec<String> = Vec::new();
    let mut n: usize = 0;
    assert(rows.take(0) =~= Seq::<SpecRecord>::empty());
    assert(strings_view(output@) =~= Seq::<Seq<char>>::empty());
    while n < def.vars.records.len()
        invariant
            spec_compile(input@) == Some(t),
            n <= def.vars.records@.len(),
            t == template@,
            rows == def@.vars.records,
            rows.len() == def.vars.records@.len(),
            spec_pop_rows(t, rows.take(n as int), def@) == Ok::<
                Seq<Seq<char>>,
                (int, SpecPopError),
            >(strings_view(output@)),
        decreases def.vars.records@.len() - n,
    {
        let var = &def.vars.records[n];
        proof {
            assert(rows.take(n + 1).drop_last() =~= rows.take(n as int));
            assert(rows.take(n + 1).last() == var@);
        }
        match template.pop(var, &def) {
            Ok(popped) => {
                let ghost prev = output@;
                output.push(popped);
                assert(strings_view(output@) =~= strings_view(prev).push(popped@));
            },
            Err(error) => {
                proof {
                    lemma_pop_rows_err(t, rows, def@, (n + 1) as int);
                }
                return Err(TemplateError::Row { row: n + 1, error });
            },
        }
        n = n + 1;
    }
    proof {
        assert(rows.take(n as int) =~= rows);
        lemma_pop_rows_len(t, rows, def@);
    }
    Ok(output)
}

/// A failure at a row is the failure of the whole.
proof fn lemma_pop_rows_err(t: Seq<SpecCompiledNode>, rows: Seq<SpecRecord>, d: SpecDefinition, k: int)
    requires
        0 < k <= rows.len(),
        spec_pop_rows(t, rows.take(k), d) is Err,
    ensures
        spec_pop_rows(t, rows, d) == spec_pop_rows(t, rows.take(k), d),
    decreases rows.len() - k,
{
    if k < rows.len() {
        assert(rows.take(k + 1).drop_last() =~= rows.take(k));
        lemma_pop_rows_err(t, rows, d, k + 1);
    } else {
        assert(rows.take(k) =~= rows);
    }
}

/// Populating all rows succeeds exactly when each row populates on its own; then the
/// output for each row is what populating that row alone gives.  Where it fails, it
/// reports the first row that fails, with that row's error.
pub proof fn lemma_pop_rows_each(t: Seq<SpecCompiledNode>, rows: Seq<SpecRecord>, d: SpecDefinition)
    ensures
        (spec_pop_rows(t, rows, d) is Ok) == (forall|i: int|
            0 <= i < rows.len() ==> #[trigger] spec_pop_nodes(t, rows[i], d, Map::empty()) is Ok),
        spec_pop_rows(t, rows, d) matches Ok(out) ==> out.len() == rows.len() && forall|i: int|
            0 <= i < rows.len() ==> #[trigger] spec_pop_nodes(t, rows[i], d, Map::empty()) == Ok::<
                Seq<char>,
                SpecPopError,
            >(out[i]),
        spec_pop_rows(t, rows, d) matches Err((k, e)) ==> {
            &&& 0 <= k < rows.len()
            &&& spec_pop_nodes(t, rows[k], d, Map::empty()) == Err::<Seq<char>, SpecPopError>(e)
            &&& forall|i: int| 0 <= i < k ==> #[trigger] spec_pop_nodes(t, rows[i], d, Map::empty()) is Ok
        },
    decreases rows.len(),
{
    if rows.len() > 0 {
        let init = rows.drop_last();
        lemma_pop_rows_each(t, init, d);
        assert forall|i: int| 0 <= i < init.len() implies init[i] == rows[i] by {}
        let last = spec_pop_nodes(t, rows.last(), d, Map::empty());
        if !(spec_pop_rows(t, init, d) is Ok) {
            let i = choose|i: int| 0 <= i < init.len() && !(#[trigger] spec_pop_nodes(t, init[i], d, Map::empty()) is Ok);
            assert(!(spec_pop_nodes(t, rows[i], d, Map::empty()) is Ok));
        } else if last is Ok {
            assert forall|i: int| 0 <= i < rows.len() implies #[trigger] spec_pop_nodes(t, rows[i], d, Map::empty()) is Ok by {
                if i < init.len() {
                    assert(init[i] == rows[i]);
                }
            }
        } else {
            assert(!(spec_pop_nodes(t, rows[rows.len() - 1], d, Map::empty()) is Ok));
        }
    }
}

/// There is one output per row.
pub proof fn lemma_pop_rows_len(t: Seq<SpecCompiledNode>, rows: Seq<SpecRecord>, d: SpecDefinition)
    ensures
        spec_pop_rows(t, rows, d) matches Ok(out) ==> out.len() == rows.len(),
    decreases rows.len(),
{
    if rows.len() > 0 {
        lemma_pop_rows_len(t, rows.drop_last(), d);
    }
}

} // verus!
