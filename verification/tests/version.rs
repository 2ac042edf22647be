use derrick::migration::ExistingMigration;
use derrick::version::current_version;

fn row(version: i64) -> ExistingMigration {
    ExistingMigration {
        version,
        description: format!("migration {}", version),
        content: String::from("SELECT 1;"),
        duration_ms: 1,
    }
}

#[test]
fn empty_history_has_no_version() {
    assert_eq!(current_version(&vec![]), None);
}

#[test]
fn single_row_is_the_current_version() {
    assert_eq!(current_version(&vec![row(4)]), Some(4));
}

#[test]
fn current_version_is_the_greatest_whatever_the_order() {
    assert_eq!(current_version(&vec![row(2), row(9), row(3)]), Some(9));
    assert_eq!(current_version(&vec![row(9), row(3), row(2)]), Some(9));
    assert_eq!(current_version(&vec![row(1), row(2), row(3)]), Some(3));
}

#[test]
fn current_version_takes_repeated_and_extreme_versions() {
    assert_eq!(current_version(&vec![row(5), row(5)]), Some(5));
    assert_eq!(current_version(&vec![row(-3), row(-7)]), Some(-3));
    assert_eq!(current_version(&vec![row(i64::MIN)]), Some(i64::MIN));
    assert_eq!(current_version(&vec![row(0), row(i64::MAX), row(i64::MIN)]), Some(i64::MAX));
}
