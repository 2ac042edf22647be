//! What the engine asks of the history table, as queries for the backend
//! to run, and what it makes of a failure to run them.

use crate::error::{Error, ErrorView};
use crate::history::{record_bindings, HistoryTable, Query, QueryView, SqlValue};
use crate::migration::AppliedMigration;
use vstd::prelude::*;

verus! {

/// What the engine does on the database besides applying a migration.
#[derive(Debug, Clone, Copy, PartialEq, Eq, Structural)]
pub enum Operation {
    /// Reaching the database.
    Initialize,
    /// Creating the history table where it is missing.
    CheckHistoryTable,
    /// Reading the history table.
    GetHistoryTable,
    /// Inserting a row into the history table by hand.
    InsertNewApplied,
}

impl Operation {
    /// The error that this operation fails with, for the `cause` that the
    /// driver gave.
    pub open spec fn spec_failure(self, cause: Seq<char>) -> ErrorView {
        match self {
            Operation::Initialize => ErrorView::Connection { cause },
            Operation::CheckHistoryTable => ErrorView::HistoryTable { cause },
            Operation::GetHistoryTable => ErrorView::Query { cause },
            Operation::InsertNewApplied => ErrorView::Query { cause },
        }
    }

    /// The error that this operation fails with: a connection error where
    /// the database cannot be reached, a history table error where the
    /// table cannot be created, a query error where it cannot be read or
    /// written.
    pub fn failure(self, cause: String) -> (error: Error)
        ensures
            error@ == self.spec_failure(cause@),
    {
        match self {
            Operation::Initialize => Error::Connection { cause },
            Operation::CheckHistoryTable => Error::HistoryTable { cause },
            Operation::GetHistoryTable => Error::Query { cause },
            Operation::InsertNewApplied => Error::Query { cause },
        }
    }
}

/// The text of a query that binds no value.
pub open spec fn unbound(sql: Seq<char>) -> QueryView {
    QueryView { sql, bindings: Seq::empty() }
}

/// The query that creates the history table if it does not exist. It is
/// safe to run on every start.
pub fn check_history_table<H: HistoryTable>(history: &H) -> (query: Query)
    ensures
        query@ == unbound(history.spec_create_if_not_exists_query()),
{
    let bindings: Vec<SqlValue> = Vec::new();
    assert(bindings.deep_view() =~= Seq::empty());
    Query { sql: history.create_if_not_exists_query(), bindings }
}

/// The query that reads the whole history table. The rows come in no
/// particular order.
pub fn get_history_table<H: HistoryTable>(history: &H) -> (query: Query)
    ensures
        query@ == unbound(history.spec_select_star_from_query()),
{
    let bindings: Vec<SqlValue> = Vec::new();
    assert(bindings.deep_view() =~= Seq::empty());
    Query { sql: history.select_star_from_query(), bindings }
}

/// The query that inserts the history row of `applied`: the insert of the
/// backend, with the version, the description, the text and the duration of
/// `applied` bound to its four placeholders, in that order.
pub fn insert_new_applied<H: HistoryTable>(history: &H, applied: &AppliedMigration) -> (query:
    Query)
    ensures
        query@ == (QueryView {
            sql: history.spec_insert_into_query(applied@),
            bindings: record_bindings(applied@),
        }),
{
    Query { sql: history.insert_into_query(applied), bindings: applied.bindings() }
}

} // verus!
