use derrick::engine::{check_history_table, get_history_table, insert_new_applied, Operation};
use derrick::error::Error;
use derrick::history::{HistoryTable, HistoryTableOptions, Query, SqlValue};
use derrick::migration::AppliedMigration;
use derrick::postgres::SqlxPgHistoryTable;

fn applied() -> AppliedMigration {
    AppliedMigration {
        version: 7,
        description: String::from("add users"),
        content: String::from("CREATE TABLE users(id BIGINT);"),
        duration_ms: 31,
    }
}

#[test]
fn table_keeps_its_name() {
    let table = SqlxPgHistoryTable::new(String::from("schema_history"));
    assert_eq!(table.name(), "schema_history");
    assert_eq!(table.table(), "schema_history");
    assert_eq!(table.clone(), table);
}

#[test]
fn options_resolve_to_a_qualified_name() {
    let bare = HistoryTableOptions::new(String::from("history"));
    assert_eq!(bare.name(), "history");
    assert_eq!(bare.schema, None);
    let qualified =
        HistoryTableOptions::new(String::from("history")).with_schema(String::from("ops"));
    assert_eq!(qualified.name(), "ops.history");
    assert_eq!(qualified.table_name, "history");
}

#[test]
fn table_is_made_from_options() {
    let options =
        HistoryTableOptions::new(String::from("history")).with_schema(String::from("ops"));
    let table = <SqlxPgHistoryTable as HistoryTable>::new(&options);
    assert_eq!(table.name(), "ops.history");
    let bare = <SqlxPgHistoryTable as HistoryTable>::new(&HistoryTableOptions::new(
        String::from("log"),
    ));
    assert_eq!(bare.table(), "log");
}

#[test]
fn create_query_names_the_table_and_its_columns() {
    let table = SqlxPgHistoryTable::new(String::from("ops.history"));
    assert_eq!(
        table.create_if_not_exists_query(),
        "CREATE TABLE IF NOT EXISTS ops.history(\n  version BIGINT PRIMARY KEY,\n  description TEXT NOT NULL,\n  content TEXT NOT NULL,\n  duration_ms BIGINT NOT NULL\n);"
    );
}

#[test]
fn select_query_reads_the_whole_table() {
    let table = SqlxPgHistoryTable::new(String::from("history"));
    assert_eq!(table.select_star_from_query(), "SELECT * FROM history;");
}

#[test]
fn insert_query_has_four_placeholders() {
    let table = SqlxPgHistoryTable::new(String::from("history"));
    assert_eq!(
        table.insert_into_query(&applied()),
        "\nINSERT INTO history(version, description, content, duration_ms)\n  VALUES ($1, $2, $3, $4);"
    );
}

#[test]
fn insert_binds_version_description_content_duration() {
    assert_eq!(
        applied().bindings(),
        vec![
            SqlValue::BigInt(7),
            SqlValue::Text(String::from("add users")),
            SqlValue::Text(String::from("CREATE TABLE users(id BIGINT);")),
            SqlValue::BigInt(31),
        ]
    );
}

#[test]
fn engine_asks_for_the_table_to_be_created() {
    let table = SqlxPgHistoryTable::new(String::from("history"));
    assert_eq!(
        check_history_table(&table),
        Query { sql: table.create_if_not_exists_query(), bindings: vec![] }
    );
}

#[test]
fn engine_asks_for_all_rows() {
    let table = SqlxPgHistoryTable::new(String::from("history"));
    assert_eq!(
        get_history_table(&table),
        Query { sql: String::from("SELECT * FROM history;"), bindings: vec![] }
    );
}

#[test]
fn engine_asks_for_the_row_of_an_applied_migration() {
    let table = SqlxPgHistoryTable::new(String::from("history"));
    let query = insert_new_applied(&table, &applied());
    assert_eq!(query.sql, table.insert_into_query(&applied()));
    assert_eq!(query.bindings, applied().bindings());
    assert_eq!(query.bindings.len(), 4);
}

#[test]
fn each_operation_fails_with_its_own_error() {
    assert_eq!(
        Operation::Initialize.failure(String::from("refused")),
        Error::Connection { cause: String::from("refused") }
    );
    assert_eq!(
        Operation::CheckHistoryTable.failure(String::from("denied")),
        Error::HistoryTable { cause: String::from("denied") }
    );
    assert_eq!(
        Operation::GetHistoryTable.failure(String::from("gone")),
        Error::Query { cause: String::from("gone") }
    );
    assert_eq!(
        Operation::InsertNewApplied.failure(String::from("full")),
        Error::Query { cause: String::from("full") }
    );
}

#[test]
fn errors_of_a_migration_carry_its_version() {
    let cause = String::from("boom");
    assert_eq!(Error::Begin { version: 4, cause: cause.clone() }.version(), Some(4));
    assert_eq!(
        Error::Statement { version: 5, statement: String::from("x"), cause: cause.clone() }
            .version(),
        Some(5)
    );
    assert_eq!(Error::Record { version: 6, cause: cause.clone() }.version(), Some(6));
    assert_eq!(Error::Unrecorded { version: 7, cause: cause.clone() }.version(), Some(7));
    assert_eq!(Error::Commit { version: 8, cause: cause.clone() }.version(), Some(8));
    assert_eq!(Error::Query { cause }.version(), None);
    assert_eq!(Error::DuplicateVersion { version: 9 }.version(), None);
}

#[test]
fn only_an_unrecorded_migration_leaves_the_schema_changed() {
    let cause = String::from("boom");
    assert!(Error::Unrecorded { version: 1, cause: cause.clone() }.leaves_schema_changed());
    assert!(!Error::Record { version: 1, cause: cause.clone() }.leaves_schema_changed());
    assert!(!Error::Statement { version: 1, statement: String::from("x"), cause: cause.clone() }
        .leaves_schema_changed());
    assert!(!Error::Commit { version: 1, cause }.leaves_schema_changed());
}
