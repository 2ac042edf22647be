//! The history table in the dialect of PostgreSQL.

use crate::history::{HistoryTable, HistoryTableOptions};
use crate::migration::{AppliedMigration, RecordView};
use vstd::prelude::*;
use vstd::string::StringExecFns;

verus! {

/// The history table of a PostgreSQL database, known by its name.
#[derive(Debug, PartialEq, Eq)]
pub struct SqlxPgHistoryTable {
    name: String,
}

/// The DDL that creates the history table `name` unless it exists.
pub open spec fn create_if_not_exists_text(name: Seq<char>) -> Seq<char> {
    "CREATE TABLE IF NOT EXISTS "@ + name
        + "(\n  version BIGINT PRIMARY KEY,\n  description TEXT NOT NULL,\n  content TEXT NOT NULL,\n  duration_ms BIGINT NOT NULL\n);"@
}

/// The query for all rows of the history table `name`.
pub open spec fn select_star_from_text(name: Seq<char>) -> Seq<char> {
    "SELECT * FROM "@ + name + ";"@
}

/// The insert of one row into the history table `name`.
pub open spec fn insert_into_text(name: Seq<char>) -> Seq<char> {
    "\nINSERT INTO "@ + name
        + "(version, description, content, duration_ms)\n  VALUES ($1, $2, $3, $4);"@
}

impl View for SqlxPgHistoryTable {
    type V = Seq<char>;

    /// The table's name.
    closed spec fn view(&self) -> Seq<char> {
        self.name@
    }
}

impl Clone for SqlxPgHistoryTable {
    fn clone(&self) -> (copy: Self)
        ensures
            copy@ == self@,
    {
        SqlxPgHistoryTable { name: self.name.clone() }
    }
}

impl SqlxPgHistoryTable {
    /// The history table called `name`.
    pub fn new(name: String) -> (table: Self)
        ensures
            table@ == name@,
    {
        Self { name }
    }

    /// The table's name.
    pub fn name(&self) -> (name: String)
        ensures
            name@ == self@,
    {
        self.name.clone()
    }
}

impl HistoryTable for SqlxPgHistoryTable {
    open spec fn spec_table(&self) -> Seq<char> {
        self@
    }

    open spec fn spec_create_if_not_exists_query(&self) -> Seq<char> {
        create_if_not_exists_text(self@)
    }

    open spec fn spec_select_star_from_query(&self) -> Seq<char> {
        select_star_from_text(self@)
    }

    open spec fn spec_insert_into_query(&self, applied: RecordView) -> Seq<char> {
        insert_into_text(self@)
    }

    fn new(options: &HistoryTableOptions) -> (table: Self) {
        Self::new(options.name())
    }

    fn table(&self) -> (name: String) {
        self.name.clone()
    }

    fn create_if_not_exists_query(&self) -> (sql: String) {
        String::from_str("CREATE TABLE IF NOT EXISTS ").concat(self.name.as_str()).concat(
            "(\n  version BIGINT PRIMARY KEY,\n  description TEXT NOT NULL,\n  content TEXT NOT NULL,\n  duration_ms BIGINT NOT NULL\n);",
        )
    }

    fn select_star_from_query(&self) -> (sql: String) {
        String::from_str("SELECT * FROM ").concat(self.name.as_str()).concat(";")
    }

    fn insert_into_query(&self, applied: &AppliedMigration) -> (sql: String) {
        String::from_str("\nINSERT INTO ").concat(self.name.as_str()).concat(
            "(version, description, content, duration_ms)\n  VALUES ($1, $2, $3, $4);",
        )
    }
}

} // verus!
