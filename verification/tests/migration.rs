use derrick::apply::ApplyMode;
use derrick::migration::{AppliedMigration, ExistingMigration, Migration, MigrationSource};

fn migration() -> Migration {
    Migration {
        version: 3,
        description: String::from("add index"),
        statements: vec![
            String::from("CREATE INDEX CONCURRENTLY a ON t(a)"),
            String::from("CREATE INDEX CONCURRENTLY b ON t(b)"),
        ],
        sql: String::from(
            "CREATE INDEX CONCURRENTLY a ON t(a);\nCREATE INDEX CONCURRENTLY b ON t(b);",
        ),
        no_tx: true,
    }
}

#[test]
fn applied_record_keeps_version_description_and_text() {
    let applied = migration().new_applied(250);
    assert_eq!(
        applied,
        AppliedMigration {
            version: 3,
            description: String::from("add index"),
            content: String::from(
                "CREATE INDEX CONCURRENTLY a ON t(a);\nCREATE INDEX CONCURRENTLY b ON t(b);"
            ),
            duration_ms: 250,
        }
    );
}

#[test]
fn history_row_mirrors_the_applied_record() {
    let row = migration().new_applied(12).into_existing();
    assert_eq!(
        row,
        ExistingMigration {
            version: 3,
            description: String::from("add index"),
            content: migration().sql,
            duration_ms: 12,
        }
    );
}

#[test]
fn source_of_a_migration_is_its_text() {
    assert_eq!(
        migration().source(),
        MigrationSource {
            version: 3,
            description: String::from("add index"),
            content: migration().sql,
        }
    );
}

#[test]
fn clones_are_equal_to_their_originals() {
    let original = migration();
    assert_eq!(original.clone(), original);
    let applied = original.new_applied(1);
    assert_eq!(applied.clone(), applied);
    let row = applied.clone().into_existing();
    assert_eq!(row.clone(), row);
    let source = original.source();
    assert_eq!(source.clone(), source);
}

#[test]
fn mode_follows_the_no_tx_mark() {
    let mut m = migration();
    assert_eq!(ApplyMode::of(&m), ApplyMode::NonTransactional);
    m.no_tx = false;
    assert_eq!(ApplyMode::of(&m), ApplyMode::Transactional);
}
