use derrick::error::{Conflict, Error};
use derrick::migration::{ExistingMigration, MigrationSource};
use derrick::validate::{NoValidation, Validate};

fn source(version: i64, content: &str) -> MigrationSource {
    MigrationSource {
        version,
        description: format!("migration {}", version),
        content: String::from(content),
    }
}

fn row(version: i64, content: &str) -> ExistingMigration {
    ExistingMigration {
        version,
        description: format!("migration {}", version),
        content: String::from(content),
        duration_ms: 3,
    }
}

fn conflicts(result: Result<(), Error>) -> Vec<Conflict> {
    match result {
        Err(Error::Validation { conflicts }) => conflicts,
        other => panic!("expected a validation error, got {:?}", other),
    }
}

#[test]
fn no_validation_accepts_anything() {
    assert_eq!(NoValidation::validate(vec![], vec![]), Ok(()));
    assert_eq!(NoValidation::validate(vec![source(1, "a")], vec![row(1, "a")]), Ok(()));
}

#[test]
fn no_validation_accepts_history_without_definitions() {
    assert_eq!(NoValidation::validate(vec![], vec![row(1, "a"), row(2, "b")]), Ok(()));
    assert_eq!(NoValidation::validate(vec![source(9, "z")], vec![row(1, "changed")]), Ok(()));
}

#[test]
fn agreeing_history_is_valid() {
    let sources = vec![source(1, "a"), source(2, "b"), source(3, "c")];
    assert_eq!(Validate::run_validation(sources, vec![row(2, "b"), row(1, "a")]), Ok(()));
    assert_eq!(Validate::run_validation(vec![], vec![]), Ok(()));
    assert_eq!(Validate::run_validation(vec![source(1, "a")], vec![]), Ok(()));
}

#[test]
fn orphan_row_is_reported() {
    let result = Validate::run_validation(vec![source(1, "a")], vec![row(1, "a"), row(2, "b")]);
    assert_eq!(conflicts(result), vec![Conflict::Orphan { version: 2 }]);
}

#[test]
fn drifted_text_is_reported() {
    let result = Validate::run_validation(
        vec![source(1, "a"), source(2, "b edited")],
        vec![row(1, "a"), row(2, "b")],
    );
    assert_eq!(conflicts(result), vec![Conflict::Drift { version: 2 }]);
}

#[test]
fn passed_over_version_is_reported() {
    let result = Validate::run_validation(
        vec![source(1, "a"), source(2, "b"), source(3, "c")],
        vec![row(1, "a"), row(3, "c")],
    );
    assert_eq!(conflicts(result), vec![Conflict::Gap { version: 2 }]);
}

#[test]
fn version_above_history_is_no_gap() {
    let result = Validate::run_validation(
        vec![source(1, "a"), source(2, "b"), source(3, "c")],
        vec![row(1, "a"), row(2, "b")],
    );
    assert_eq!(result, Ok(()));
}

#[test]
fn all_conflicts_are_reported_not_the_first_alone() {
    let sources = vec![source(1, "a"), source(2, "b"), source(4, "d"), source(5, "e")];
    let history = vec![row(5, "e"), row(3, "c"), row(1, "a changed")];
    assert_eq!(
        conflicts(Validate::run_validation(sources, history)),
        vec![
            Conflict::Orphan { version: 3 },
            Conflict::Drift { version: 1 },
            Conflict::Gap { version: 2 },
            Conflict::Gap { version: 4 },
        ]
    );
}

#[test]
fn history_without_definitions_is_all_orphans() {
    let result = Validate::run_validation(vec![], vec![row(1, "a"), row(2, "b")]);
    assert_eq!(
        conflicts(result),
        vec![Conflict::Orphan { version: 1 }, Conflict::Orphan { version: 2 }]
    );
}
