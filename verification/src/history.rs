//! The history table as the engine sees it: a name, three SQL texts that
//! each backend words in its own dialect, and the values that are bound to
//! the insert.

use crate::migration::{AppliedMigration, RecordView};
use vstd::prelude::*;
use vstd::string::StringExecFns;

verus! {

/// The identity of the history table: its name, and the schema that
/// qualifies it where there is one.
#[derive(Debug, PartialEq, Eq)]
pub struct HistoryTableOptions {
    pub table_name: String,
    pub schema: Option<String>,
}

/// The qualified name of a table: `schema.table_name`, or the bare
/// `table_name` where no schema is given.
pub open spec fn qualified_name(schema: Option<Seq<char>>, table_name: Seq<char>) -> Seq<char> {
    match schema {
        Some(schema) => schema + seq!['.'] + table_name,
        None => table_name,
    }
}

impl HistoryTableOptions {
    /// The qualified name that these options resolve to.
    pub open spec fn spec_name(&self) -> Seq<char> {
        qualified_name(
            match self.schema {
                Some(schema) => Some(schema@),
                None => None,
            },
            self.table_name@,
        )
    }

    /// Options for an unqualified table.
    pub fn new(table_name: String) -> (options: Self)
        ensures
            options.table_name@ == table_name@,
            options.schema is None,
    {
        HistoryTableOptions { table_name, schema: None }
    }

    /// The same table, qualified by `schema`.
    pub fn with_schema(self, schema: String) -> (options: Self)
        ensures
            options.table_name@ == self.table_name@,
            options.schema matches Some(s) && s@ == schema@,
    {
        HistoryTableOptions { table_name: self.table_name, schema: Some(schema) }
    }

    /// The qualified name of the table.
    pub fn name(&self) -> (name: String)
        ensures
            name@ == self.spec_name(),
    {
        proof {
            reveal_strlit(".");
        }
        match &self.schema {
            Some(schema) => {
                let name = schema.clone().concat(".").concat(self.table_name.as_str());
                assert("."@ =~= seq!['.']);
                name
            },
            None => self.table_name.clone(),
        }
    }
}

/// A value bound to a placeholder of a prepared statement.
#[derive(Debug, PartialEq, Eq)]
pub enum SqlValue {
    BigInt(i64),
    Text(String),
}

/// The mathematical value of a [`SqlValue`].
pub enum SqlValueView {
    BigInt(int),
    Text(Seq<char>),
}

impl View for SqlValue {
    type V = SqlValueView;

    open spec fn view(&self) -> SqlValueView {
        match *self {
            SqlValue::BigInt(n) => SqlValueView::BigInt(n as int),
            SqlValue::Text(s) => SqlValueView::Text(s@),
        }
    }
}

impl DeepView for SqlValue {
    type V = SqlValueView;

    open spec fn deep_view(&self) -> SqlValueView {
        self@
    }
}

/// A prepared statement: its text, and the values for `$1`, `$2`, … in
/// that order.
#[derive(Debug, PartialEq, Eq)]
pub struct Query {
    pub sql: String,
    pub bindings: Vec<SqlValue>,
}

/// The mathematical value of a [`Query`].
pub struct QueryView {
    pub sql: Seq<char>,
    pub bindings: Seq<SqlValueView>,
}

impl View for Query {
    type V = QueryView;

    open spec fn view(&self) -> QueryView {
        QueryView { sql: self.sql@, bindings: self.bindings.deep_view() }
    }
}

/// The values that the insert of a history row binds: version,
/// description, content and duration, in the order of the placeholders.
pub open spec fn record_bindings(record: RecordView) -> Seq<SqlValueView> {
    seq![
        SqlValueView::BigInt(record.version),
        SqlValueView::Text(record.description),
        SqlValueView::Text(record.content),
        SqlValueView::BigInt(record.duration_ms),
    ]
}

/// The row that an insert with these bindings adds, if they are the four
/// values of a history row in their order.
pub open spec fn bound_record(bindings: Seq<SqlValueView>) -> Option<RecordView> {
    if bindings.len() == 4 {
        match (bindings[0], bindings[1], bindings[2], bindings[3]) {
            (
                SqlValueView::BigInt(version),
                SqlValueView::Text(description),
                SqlValueView::Text(content),
                SqlValueView::BigInt(duration_ms),
            ) => Some(RecordView { version, description, content, duration_ms }),
            _ => None,
        }
    } else {
        None
    }
}

/// Binding a record and reading the bindings back gives the record.
pub proof fn lemma_bound_record_of_bindings(record: RecordView)
    ensures
        bound_record(record_bindings(record)) == Some(record),
{
}

impl AppliedMigration {
    /// The values to bind to the insert of this migration's history row.
    pub fn bindings(&self) -> (bindings: Vec<SqlValue>)
        ensures
            bindings.deep_view() == record_bindings(self@),
    {
        let mut bindings: Vec<SqlValue> = Vec::new();
        bindings.push(SqlValue::BigInt(self.version));
        bindings.push(SqlValue::Text(self.description.clone()));
        bindings.push(SqlValue::Text(self.content.clone()));
        bindings.push(SqlValue::BigInt(self.duration_ms));
        assert(bindings.deep_view() =~= record_bindings(self@));
        bindings
    }
}

/// What a backend has to say about its history table.
///
/// The three texts are the backend's own; the engine only asks that each
/// be a function of the table (and of the record, for the insert).
pub trait HistoryTable: Sized {
    /// The qualified name of the table.
    spec fn spec_table(&self) -> Seq<char>;

    /// The text of [`HistoryTable::create_if_not_exists_query`].
    spec fn spec_create_if_not_exists_query(&self) -> Seq<char>;

    /// The text of [`HistoryTable::select_star_from_query`].
    spec fn spec_select_star_from_query(&self) -> Seq<char>;

    /// The text of [`HistoryTable::insert_into_query`].
    spec fn spec_insert_into_query(&self, applied: RecordView) -> Seq<char>;

    /// The history table that `options` name.
    fn new(options: &HistoryTableOptions) -> (table: Self)
        ensures
            table.spec_table() == options.spec_name(),
    ;

    /// The qualified name of the table.
    fn table(&self) -> (name: String)
        ensures
            name@ == self.spec_table(),
    ;

    /// DDL that creates the table unless it exists.
    fn create_if_not_exists_query(&self) -> (sql: String)
        ensures
            sql@ == self.spec_create_if_not_exists_query(),
    ;

    /// A query for all rows of the table, in no particular order.
    fn select_star_from_query(&self) -> (sql: String)
        ensures
            sql@ == self.spec_select_star_from_query(),
    ;

    /// An insert of one row, with placeholders for the values that
    /// [`AppliedMigration::bindings`] gives.
    fn insert_into_query(&self, applied: &AppliedMigration) -> (sql: String)
        ensures
            sql@ == self.spec_insert_into_query(applied@),
    ;
}

} // verus!
