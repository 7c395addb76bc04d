//! Why populating a template failed.
use vstd::prelude::*;
use vstd::string::StringExecFns;

use crate::expr::opt_str_view;

verus! {

/// The reasons for which a lookup, an expansion, a comparison or a loop fails.
#[derive(Debug, Clone, PartialEq, Eq)]
pub enum PopError {
    /// The first record of a table has no `$id` field.
    TableWithoutId { table: String },
    /// A record of a table, searched for an `$id`, has no `$id` field.
    RecordWithoutId { table: String },
    /// The record reached by an expansion lacks the field to read.
    MissingField { field: String },
    /// The field that holds the `$id` to look up is missing from the current record.
    MissingIndexField { index: String },
    /// A lookup names a table that the definition does not have.
    NoTable { table: String },
    /// No record of the table has the `$id` looked for.
    NotFound { table: String, key: String },
    /// A field compared with a signed integer does not hold one; `table` names the
    /// table whose records a `where` clause was testing.
    NotSignedInt { field: String, table: Option<String> },
    /// A field compared with an unsigned integer does not hold one; `table` names the
    /// table whose records a `where` clause was testing.
    NotUnsignedInt { field: String, table: Option<String> },
    /// The records that a `for` block loops over cannot be found.
    ContextUnavailable { name: String },
    /// A `for` block carries no description of what it loops over.
    MissingContextIndex,
    /// A record met by an `other` clause has no `$id` field.
    MissingIdInOther { index: String },
}

pub enum SpecPopError {
    TableWithoutId { table: Seq<char> },
    RecordWithoutId { table: Seq<char> },
    MissingField { field: Seq<char> },
    MissingIndexField { index: Seq<char> },
    NoTable { table: Seq<char> },
    NotFound { table: Seq<char>, key: Seq<char> },
    NotSignedInt { field: Seq<char>, table: Option<Seq<char>> },
    NotUnsignedInt { field: Seq<char>, table: Option<Seq<char>> },
    ContextUnavailable { name: Seq<char> },
    MissingContextIndex,
    MissingIdInOther { index: Seq<char> },
}

impl View for PopError {
    type V = SpecPopError;

    open spec fn view(&self) -> SpecPopError {
        match self {
            PopError::TableWithoutId { table } => SpecPopError::TableWithoutId { table: table@ },
            PopError::RecordWithoutId { table } => SpecPopError::RecordWithoutId { table: table@ },
            PopError::MissingField { field } => SpecPopError::MissingField { field: field@ },
            PopError::MissingIndexField { index } => SpecPopError::MissingIndexField {
                index: index@,
            },
            PopError::NoTable { table } => SpecPopError::NoTable { table: table@ },
            PopError::NotFound { table, key } => SpecPopError::NotFound {
                table: table@,
                key: key@,
            },
            PopError::NotSignedInt { field, table } => SpecPopError::NotSignedInt {
                field: field@,
                table: opt_str_view(*table),
            },
            PopError::NotUnsignedInt { field, table } => SpecPopError::NotUnsignedInt {
                field: field@,
                table: opt_str_view(*table),
            },
            PopError::ContextUnavailable { name } => SpecPopError::ContextUnavailable {
                name: name@,
            },
            PopError::MissingContextIndex => SpecPopError::MissingContextIndex,
            PopError::MissingIdInOther { index } => SpecPopError::MissingIdInOther {
                index: index@,
            },
        }
    }
}

/// The text that describes an error.
pub open spec fn spec_message(e: SpecPopError) -> Seq<char> {
    match e {
        SpecPopError::TableWithoutId { table } => "Invalid table `"@ + table + "` has no $id field"@,
        SpecPopError::RecordWithoutId { table } => "Invalid table `"@ + table
            + "` has a record with no $id field"@,
        SpecPopError::MissingField { field } => "Failed expansion: context is missing field `"@
            + field + "`"@,
        SpecPopError::MissingIndexField { index } => "Failed lookup: field `"@ + index
            + "` did not exist in context"@,
        SpecPopError::NoTable { table } => "Failed lookup: no table named `"@ + table + "`"@,
        SpecPopError::NotFound { table, key } => "Failed lookup: expected to find a "@ + table
            + " with $id="@ + key,
        SpecPopError::NotSignedInt { field, table } => "Expected `"@ + field + in_table(table)
            + " to be a signed integer"@,
        SpecPopError::NotUnsignedInt { field, table } => "Expected `"@ + field + in_table(table)
            + " to be an unsigned integer"@,
        SpecPopError::ContextUnavailable { name } => "Failed to index context `"@ + name
            + "` for block"@,
        SpecPopError::MissingContextIndex => "A for block has no context to loop over"@,
        SpecPopError::MissingIdInOther { index } => "Missing $id field when indexing `"@ + index
            + "` while evaluating other clause"@,
    }
}

/// Where a field was read: "` field in `t` table" for a table `t`, else "` field".
pub open spec fn in_table(table: Option<Seq<char>>) -> Seq<char> {
    match table {
        Some(t) => "` field in `"@ + t + "` table"@,
        None => "` field"@,
    }
}

fn in_table_text(table: &Option<String>) -> (res: String)
    ensures
        res@ == in_table(opt_str_view(*table)),
{
    match table {
        Some(t) => join3("` field in `", t, "` table"),
        None => "` field".to_owned(),
    }
}

fn join3(a: &str, b: &String, c: &str) -> (res: String)
    ensures
        res@ == a@ + b@ + c@,
{
    let mut s = a.to_owned();
    s.append(b.as_str());
    s.append(c);
    s
}

impl PopError {
    /// The text that describes this error.
    pub fn message(&self) -> (res: String)
        ensures
            res@ == spec_message(self@),
    {
        match self {
            PopError::TableWithoutId { table } => join3("Invalid table `", table, "` has no $id field"),
            PopError::RecordWithoutId { table } => join3(
                "Invalid table `",
                table,
                "` has a record with no $id field",
            ),
            PopError::MissingField { field } => join3(
                "Failed expansion: context is missing field `",
                field,
                "`",
            ),
            PopError::MissingIndexField { index } => join3(
                "Failed lookup: field `",
                index,
                "` did not exist in context",
            ),
            PopError::NoTable { table } => join3("Failed lookup: no table named `", table, "`"),
            PopError::NotFound { table, key } => {
                let mut s = join3("Failed lookup: expected to find a ", table, " with $id=");
                s.append(key.as_str());
                s
            },
            PopError::NotSignedInt { field, table } => {
                let mut s = join3("Expected `", field, "");
                s.append(in_table_text(table).as_str());
                s.append(" to be a signed integer");
                proof {
                    reveal_strlit("");
                    assert(s@ =~= spec_message(self@));
                }
                s
            },
            PopError::NotUnsignedInt { field, table } => {
                let mut s = join3("Expected `", field, "");
                s.append(in_table_text(table).as_str());
                s.append(" to be an unsigned integer");
                proof {
                    reveal_strlit("");
                    assert(s@ =~= spec_message(self@));
                }
                s
            },
            PopError::ContextUnavailable { name } => join3(
                "Failed to index context `",
                name,
                "` for block",
            ),
            PopError::MissingContextIndex => "A for block has no context to loop over".to_owned(),
            PopError::MissingIdInOther { index } => join3(
                "Missing $id field when indexing `",
                index,
                "` while evaluating other clause",
            ),
        }
    }
}

} // verus!
