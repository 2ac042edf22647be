use derrick::apply::{apply, apply_no_tx, apply_tx, Action, ApplyMode, ApplyRun, Event, Step};
use derrick::error::Error;
use derrick::history::{HistoryTable, SqlValue};
use derrick::migration::{AppliedMigration, ExistingMigration, Migration};
use derrick::plan::pending;
use derrick::postgres::SqlxPgHistoryTable;
use derrick::runner::{apply_all, apply_pending, Progress, Report};
use derrick::validate::Validate;
use derrick::version::current_version;

/// A database in memory. Every action takes ten milliseconds; a statement
/// that holds the word FAIL is refused.
struct Db {
    table: SqlxPgHistoryTable,
    schema: Vec<String>,
    history: Vec<ExistingMigration>,
    held_back: Option<(Vec<String>, Vec<ExistingMigration>)>,
    clock: u128,
    refuse_begin: bool,
    refuse_insert: bool,
    refuse_commit: bool,
    trace: Vec<String>,
}

impl Db {
    fn new() -> Db {
        Db {
            table: SqlxPgHistoryTable::new(String::from("history")),
            schema: vec![],
            history: vec![],
            held_back: None,
            clock: 1_000,
            refuse_begin: false,
            refuse_insert: false,
            refuse_commit: false,
            trace: vec![],
        }
    }

    fn with_history(versions: &[i64]) -> Db {
        let mut db = Db::new();
        for version in versions {
            db.history.push(migration(*version, false).new_applied(1).into_existing());
        }
        db
    }

    fn versions(&self) -> Vec<i64> {
        self.history.iter().map(|row| row.version).collect()
    }

    fn row(&self, bindings: &Vec<SqlValue>) -> ExistingMigration {
        match bindings.as_slice() {
            [SqlValue::BigInt(version), SqlValue::Text(description), SqlValue::Text(content), SqlValue::BigInt(duration_ms)] => {
                ExistingMigration {
                    version: *version,
                    description: description.clone(),
                    content: content.clone(),
                    duration_ms: *duration_ms,
                }
            }
            other => panic!("an insert with the bindings {:?}", other),
        }
    }

    fn perform(&mut self, action: &Action) -> Event {
        self.clock += 10;
        match action {
            Action::Begin => {
                self.trace.push(String::from("begin"));
                if self.refuse_begin {
                    return Event::Failed(String::from("no connection"));
                }
                assert!(self.held_back.is_none());
                self.held_back = Some((vec![], vec![]));
                Event::Done
            }
            Action::Execute { statement, in_transaction } => {
                self.trace.push(format!("execute {}", statement));
                if statement.contains("FAIL") {
                    return Event::Failed(String::from("syntax error"));
                }
                if *in_transaction {
                    self.held_back.as_mut().unwrap().0.push(statement.clone());
                } else {
                    self.schema.push(statement.clone());
                }
                Event::Done
            }
            Action::Record { query, in_transaction } => {
                self.trace.push(String::from("record"));
                if self.refuse_insert {
                    return Event::Failed(String::from("disk full"));
                }
                let row = self.row(&query.bindings);
                assert_eq!(
                    query.sql,
                    self.table.insert_into_query(&AppliedMigration {
                        version: row.version,
                        description: row.description.clone(),
                        content: row.content.clone(),
                        duration_ms: row.duration_ms,
                    })
                );
                if *in_transaction {
                    self.held_back.as_mut().unwrap().1.push(row);
                } else {
                    self.history.push(row);
                }
                Event::Done
            }
            Action::Commit => {
                self.trace.push(String::from("commit"));
                let (statements, rows) = self.held_back.take().unwrap();
                if self.refuse_commit {
                    return Event::Failed(String::from("connection lost"));
                }
                self.schema.extend(statements);
                self.history.extend(rows);
                Event::Done
            }
            Action::Rollback => {
                self.trace.push(String::from("rollback"));
                assert!(self.held_back.is_some());
                self.held_back = None;
                Event::Done
            }
        }
    }

    fn drive(
        &mut self,
        migration: &Migration,
        opened: (ApplyRun, Action),
    ) -> Result<AppliedMigration, Error> {
        let (mut run, mut action) = opened;
        loop {
            let event = self.perform(&action);
            let table = self.table.clone();
            match run.step(&table, migration, event, self.clock) {
                Step::Next { run: next, action: then } => {
                    run = next;
                    action = then;
                }
                Step::Done(result) => return result,
            }
        }
    }

    fn apply(&mut self, migration: &Migration) -> Result<AppliedMigration, Error> {
        let opened = apply(&self.table.clone(), migration, self.clock);
        self.drive(migration, opened)
    }

    fn finish(&mut self, opened: Progress) -> Report {
        let table = self.table.clone();
        let mut progress = opened;
        loop {
            match progress {
                Progress::Next { runner, action } => {
                    let event = self.perform(&action);
                    progress = runner.step(&table, event, self.clock);
                }
                Progress::Done(report) => return report,
            }
        }
    }

    fn apply_all(&mut self, plan: Vec<Migration>) -> Report {
        let opened = apply_all(&self.table.clone(), plan, self.clock);
        self.finish(opened)
    }

    fn migrate(&mut self, definitions: &Vec<Migration>) -> Report {
        let opened =
            apply_pending(&self.table.clone(), definitions, &self.history, self.clock).unwrap();
        self.finish(opened)
    }
}

fn migration(version: i64, no_tx: bool) -> Migration {
    Migration {
        version,
        description: format!("migration {}", version),
        statements: vec![
            format!("CREATE TABLE a{}(id BIGINT)", version),
            format!("CREATE TABLE b{}(id BIGINT)", version),
        ],
        sql: format!("CREATE TABLE a{}(id BIGINT);\nCREATE TABLE b{}(id BIGINT);", version, version),
        no_tx,
    }
}

fn failing(version: i64, no_tx: bool) -> Migration {
    let mut migration = migration(version, no_tx);
    migration.statements.insert(1, String::from("FAIL here"));
    migration
}

fn strings(items: &[&str]) -> Vec<String> {
    items.iter().map(|item| String::from(*item)).collect()
}

#[test]
fn apply_opens_a_transaction_unless_told_not_to() {
    let table = SqlxPgHistoryTable::new(String::from("history"));
    let (run, first) = apply(&table, &migration(1, false), 0);
    assert_eq!(first, Action::Begin);
    assert_eq!(run.mode(), ApplyMode::Transactional);
    let (run, first) = apply(&table, &migration(1, true), 0);
    assert_eq!(
        first,
        Action::Execute {
            statement: String::from("CREATE TABLE a1(id BIGINT)"),
            in_transaction: false,
        }
    );
    assert_eq!(run.mode(), ApplyMode::NonTransactional);
}

#[test]
fn apply_tx_and_apply_no_tx_do_not_look_at_the_mark() {
    let table = SqlxPgHistoryTable::new(String::from("history"));
    let (run, first) = apply_tx(&table, &migration(1, true), 0);
    assert_eq!(first, Action::Begin);
    assert_eq!(run.mode(), ApplyMode::Transactional);
    let (run, first) = apply_no_tx(&table, &migration(1, false), 0);
    assert!(matches!(first, Action::Execute { in_transaction: false, .. }));
    assert_eq!(run.mode(), ApplyMode::NonTransactional);
}

#[test]
fn transactional_apply_goes_begin_statements_record_commit() {
    let mut db = Db::new();
    let applied = db.apply(&migration(1, false)).unwrap();
    assert_eq!(
        db.trace,
        strings(&[
            "begin",
            "execute CREATE TABLE a1(id BIGINT)",
            "execute CREATE TABLE b1(id BIGINT)",
            "record",
            "commit",
        ])
    );
    assert_eq!(applied, migration(1, false).new_applied(20));
    assert_eq!(
        db.schema,
        strings(&["CREATE TABLE a1(id BIGINT)", "CREATE TABLE b1(id BIGINT)"])
    );
    assert_eq!(db.history, vec![applied.into_existing()]);
    assert!(db.held_back.is_none());
}

#[test]
fn non_transactional_apply_goes_statements_then_record() {
    let mut db = Db::new();
    let applied = db.apply(&migration(1, true)).unwrap();
    assert_eq!(
        db.trace,
        strings(&[
            "execute CREATE TABLE a1(id BIGINT)",
            "execute CREATE TABLE b1(id BIGINT)",
            "record",
        ])
    );
    assert_eq!(applied, migration(1, true).new_applied(20));
    assert_eq!(
        db.schema,
        strings(&["CREATE TABLE a1(id BIGINT)", "CREATE TABLE b1(id BIGINT)"])
    );
    assert_eq!(db.history, vec![applied.into_existing()]);
}

#[test]
fn transactional_statements_and_row_use_the_transaction() {
    let table = SqlxPgHistoryTable::new(String::from("history"));
    let m = migration(1, false);
    let (run, _) = apply(&table, &m, 5);
    let Step::Next { run, action } = run.step(&table, &m, Event::Done, 6) else {
        panic!("the run is over after begin");
    };
    assert_eq!(
        action,
        Action::Execute {
            statement: String::from("CREATE TABLE a1(id BIGINT)"),
            in_transaction: true,
        }
    );
    let Step::Next { run, action } = run.step(&table, &m, Event::Done, 7) else {
        panic!("the run is over after the first statement");
    };
    assert_eq!(
        action,
        Action::Execute {
            statement: String::from("CREATE TABLE b1(id BIGINT)"),
            in_transaction: true,
        }
    );
    let Step::Next { run, action } = run.step(&table, &m, Event::Done, 9) else {
        panic!("the run is over after the last statement");
    };
    let Action::Record { query, in_transaction } = action else {
        panic!("no insert after the last statement");
    };
    assert!(in_transaction);
    assert_eq!(query.sql, table.insert_into_query(&m.new_applied(3)));
    assert_eq!(query.bindings, m.new_applied(3).bindings());
    let Step::Next { run, action } = run.step(&table, &m, Event::Done, 10) else {
        panic!("the run is over before the commit");
    };
    assert_eq!(action, Action::Commit);
    let Step::Done(result) = run.step(&table, &m, Event::Done, 11) else {
        panic!("the run goes on after the commit");
    };
    assert_eq!(result, Ok(m.new_applied(3)));
}

#[test]
fn duration_is_the_span_of_the_statements() {
    let table = SqlxPgHistoryTable::new(String::from("history"));
    let m = migration(1, false);
    // The transaction takes 400 ms to open: that is not part of the span.
    let (run, _) = apply(&table, &m, 1_000);
    let Step::Next { run, .. } = run.step(&table, &m, Event::Done, 1_400) else {
        panic!("the run is over after begin");
    };
    let Step::Next { run, .. } = run.step(&table, &m, Event::Done, 1_430) else {
        panic!("the run is over after the first statement");
    };
    let Step::Next { run, action } = run.step(&table, &m, Event::Done, 1_442) else {
        panic!("the run is over after the last statement");
    };
    let Action::Record { query, .. } = action else {
        panic!("no insert after the last statement");
    };
    assert_eq!(query.bindings[3], SqlValue::BigInt(42));
    // Nor is the time that insert and commit take.
    let Step::Next { run, .. } = run.step(&table, &m, Event::Done, 2_000) else {
        panic!("the run is over before the commit");
    };
    let Step::Done(result) = run.step(&table, &m, Event::Done, 3_000) else {
        panic!("the run goes on after the commit");
    };
    assert_eq!(result.unwrap().duration_ms, 42);
}

#[test]
fn duration_outside_a_transaction_starts_when_the_run_opens() {
    let table = SqlxPgHistoryTable::new(String::from("history"));
    let m = migration(1, true);
    let (run, _) = apply(&table, &m, 100);
    let Step::Next { run, .. } = run.step(&table, &m, Event::Done, 130) else {
        panic!("the run is over after the first statement");
    };
    let Step::Next { run, .. } = run.step(&table, &m, Event::Done, 175) else {
        panic!("the run is over after the last statement");
    };
    let Step::Done(result) = run.step(&table, &m, Event::Done, 500) else {
        panic!("the run goes on after the insert");
    };
    assert_eq!(result.unwrap().duration_ms, 75);
}

#[test]
fn clock_that_goes_back_gives_no_duration() {
    let table = SqlxPgHistoryTable::new(String::from("history"));
    let mut m = migration(1, true);
    m.statements.truncate(1);
    let (run, _) = apply(&table, &m, 100);
    let Step::Next { run, .. } = run.step(&table, &m, Event::Done, 40) else {
        panic!("the run is over after the statement");
    };
    let Step::Done(result) = run.step(&table, &m, Event::Done, 50) else {
        panic!("the run goes on after the insert");
    };
    assert_eq!(result.unwrap().duration_ms, 0);
}

#[test]
fn migration_without_statements_is_recorded_with_no_duration() {
    let mut empty = migration(1, false);
    empty.statements.clear();
    let mut db = Db::new();
    let applied = db.apply(&empty).unwrap();
    assert_eq!(db.trace, strings(&["begin", "record", "commit"]));
    assert_eq!(applied.duration_ms, 0);
    assert_eq!(db.versions(), vec![1]);

    empty.no_tx = true;
    empty.version = 2;
    let applied = db.apply(&empty).unwrap();
    assert_eq!(applied.duration_ms, 0);
    assert_eq!(db.versions(), vec![1, 2]);
    assert!(db.schema.is_empty());
}

#[test]
fn failed_insert_in_a_transaction_changes_nothing() {
    let mut db = Db::with_history(&[1]);
    db.refuse_insert = true;
    let result = db.apply(&migration(2, false));
    assert_eq!(result, Err(Error::Record { version: 2, cause: String::from("disk full") }));
    assert_eq!(
        db.trace,
        strings(&[
            "begin",
            "execute CREATE TABLE a2(id BIGINT)",
            "execute CREATE TABLE b2(id BIGINT)",
            "record",
            "rollback",
        ])
    );
    assert!(db.schema.is_empty());
    assert_eq!(db.versions(), vec![1]);
    assert!(db.held_back.is_none());
    assert_eq!(current_version(&db.history), Some(1));
}

#[test]
fn failed_insert_outside_a_transaction_leaves_the_schema_changed() {
    let mut db = Db::with_history(&[1]);
    db.refuse_insert = true;
    let result = db.apply(&migration(2, true));
    let error = result.unwrap_err();
    assert_eq!(error, Error::Unrecorded { version: 2, cause: String::from("disk full") });
    assert!(error.leaves_schema_changed());
    assert_eq!(
        db.schema,
        strings(&["CREATE TABLE a2(id BIGINT)", "CREATE TABLE b2(id BIGINT)"])
    );
    assert_eq!(db.versions(), vec![1]);
    assert_eq!(current_version(&db.history), Some(1));
}

#[test]
fn failing_statement_outside_a_transaction_leaves_history_empty() {
    let mut db = Db::new();
    let mut v1 = migration(1, true);
    v1.statements = strings(&["FAIL at once"]);
    let report = db.migrate(&vec![v1]);
    assert_eq!(report.applied, vec![]);
    let error = report.failure.unwrap();
    assert_eq!(
        error,
        Error::Statement {
            version: 1,
            statement: String::from("FAIL at once"),
            cause: String::from("syntax error"),
        }
    );
    assert_eq!(error.version(), Some(1));
    assert!(db.history.is_empty());
    assert_eq!(current_version(&db.history), None);
}

#[test]
fn failing_statement_outside_a_transaction_keeps_what_ran_before_it() {
    let mut db = Db::new();
    let result = db.apply(&failing(1, true));
    assert_eq!(
        result,
        Err(Error::Statement {
            version: 1,
            statement: String::from("FAIL here"),
            cause: String::from("syntax error"),
        })
    );
    assert_eq!(db.trace, strings(&["execute CREATE TABLE a1(id BIGINT)", "execute FAIL here"]));
    assert_eq!(db.schema, strings(&["CREATE TABLE a1(id BIGINT)"]));
    assert!(db.history.is_empty());
}

#[test]
fn failing_statement_in_a_transaction_changes_nothing() {
    let mut db = Db::new();
    let result = db.apply(&failing(1, false));
    assert_eq!(
        result,
        Err(Error::Statement {
            version: 1,
            statement: String::from("FAIL here"),
            cause: String::from("syntax error"),
        })
    );
    assert_eq!(
        db.trace,
        strings(&["begin", "execute CREATE TABLE a1(id BIGINT)", "execute FAIL here", "rollback"])
    );
    assert!(db.schema.is_empty());
    assert!(db.history.is_empty());
    assert!(db.held_back.is_none());
}

#[test]
fn rollback_that_fails_does_not_hide_the_first_error() {
    let table = SqlxPgHistoryTable::new(String::from("history"));
    let m = migration(1, false);
    let (run, _) = apply(&table, &m, 0);
    let Step::Next { run, .. } = run.step(&table, &m, Event::Done, 1) else {
        panic!("the run is over after begin");
    };
    let Step::Next { run, action } =
        run.step(&table, &m, Event::Failed(String::from("deadlock")), 2)
    else {
        panic!("the run is over before the rollback");
    };
    assert_eq!(action, Action::Rollback);
    let Step::Done(result) = run.step(&table, &m, Event::Failed(String::from("gone")), 3) else {
        panic!("the run goes on after the rollback");
    };
    assert_eq!(
        result,
        Err(Error::Statement {
            version: 1,
            statement: String::from("CREATE TABLE a1(id BIGINT)"),
            cause: String::from("deadlock"),
        })
    );
}

#[test]
fn transaction_that_does_not_open_ends_the_run() {
    let mut db = Db::new();
    db.refuse_begin = true;
    let result = db.apply(&migration(1, false));
    assert_eq!(result, Err(Error::Begin { version: 1, cause: String::from("no connection") }));
    assert_eq!(db.trace, strings(&["begin"]));
    assert!(db.schema.is_empty());
    assert!(db.history.is_empty());
}

#[test]
fn commit_that_fails_changes_nothing() {
    let mut db = Db::new();
    db.refuse_commit = true;
    let result = db.apply(&migration(1, false));
    assert_eq!(
        result,
        Err(Error::Commit { version: 1, cause: String::from("connection lost") })
    );
    assert!(db.schema.is_empty());
    assert!(db.history.is_empty());
}

#[test]
fn only_the_missing_migration_is_applied() {
    let definitions = vec![migration(1, false), migration(2, false), migration(3, false)];
    let mut db = Db::with_history(&[1, 2]);
    let report = db.migrate(&definitions);
    assert_eq!(report.failure, None);
    assert_eq!(report.applied, vec![migration(3, false).new_applied(20)]);
    assert_eq!(
        db.trace,
        strings(&[
            "begin",
            "execute CREATE TABLE a3(id BIGINT)",
            "execute CREATE TABLE b3(id BIGINT)",
            "record",
            "commit",
        ])
    );
    assert_eq!(db.versions(), vec![1, 2, 3]);
    assert_eq!(current_version(&db.history), Some(3));
}

#[test]
fn apply_all_reaches_the_latest_declared_version() {
    let definitions =
        vec![migration(3, true), migration(1, false), migration(4, false), migration(2, true)];
    let mut db = Db::with_history(&[1]);
    let report = db.migrate(&definitions);
    assert_eq!(report.failure, None);
    assert_eq!(db.versions(), vec![1, 2, 3, 4]);
    assert_eq!(current_version(&db.history), Some(4));
    assert_eq!(
        db.schema,
        strings(&[
            "CREATE TABLE a2(id BIGINT)",
            "CREATE TABLE b2(id BIGINT)",
            "CREATE TABLE a3(id BIGINT)",
            "CREATE TABLE b3(id BIGINT)",
            "CREATE TABLE a4(id BIGINT)",
            "CREATE TABLE b4(id BIGINT)",
        ])
    );
}

#[test]
fn apply_all_does_not_go_back_behind_the_history() {
    // The history is ahead of every declaration: the database stays where it is.
    let definitions = vec![migration(1, false), migration(2, false)];
    let mut db = Db::with_history(&[5]);
    let report = db.migrate(&definitions);
    assert_eq!(report, Report { applied: vec![], failure: None });
    assert!(db.trace.is_empty());
    assert_eq!(current_version(&db.history), Some(5));
}

#[test]
fn apply_all_twice_applies_nothing_the_second_time() {
    let definitions = vec![migration(2, true), migration(1, false), migration(3, false)];
    let mut db = Db::new();
    let first = db.migrate(&definitions);
    assert_eq!(first.applied.len(), 3);
    assert_eq!(first.failure, None);
    let actions = db.trace.len();
    let schema = db.schema.clone();

    assert_eq!(pending(&definitions, &db.history).unwrap(), vec![]);
    let second = db.migrate(&definitions);
    assert_eq!(second, Report { applied: vec![], failure: None });
    assert_eq!(db.trace.len(), actions);
    assert_eq!(db.schema, schema);
    assert_eq!(db.versions(), vec![1, 2, 3]);
}

#[test]
fn apply_all_stops_at_the_first_failure() {
    let definitions = vec![migration(1, false), failing(2, false), migration(3, false)];
    let mut db = Db::new();
    let report = db.migrate(&definitions);
    assert_eq!(report.applied, vec![migration(1, false).new_applied(20)]);
    assert_eq!(
        report.failure,
        Some(Error::Statement {
            version: 2,
            statement: String::from("FAIL here"),
            cause: String::from("syntax error"),
        })
    );
    assert_eq!(
        db.schema,
        strings(&["CREATE TABLE a1(id BIGINT)", "CREATE TABLE b1(id BIGINT)"])
    );
    assert_eq!(db.versions(), vec![1]);
    assert!(!db.trace.iter().any(|line| line.contains("a3")));

    // What failed is pending still, together with what came after it.
    let plan = pending(&definitions, &db.history).unwrap();
    assert_eq!(plan.iter().map(|m| m.version).collect::<Vec<i64>>(), vec![2, 3]);
}

#[test]
fn apply_all_stops_at_an_unrecorded_migration() {
    let definitions = vec![migration(1, true), migration(2, false)];
    let mut db = Db::new();
    db.refuse_insert = true;
    let report = db.migrate(&definitions);
    assert_eq!(report.applied, vec![]);
    assert_eq!(
        report.failure,
        Some(Error::Unrecorded { version: 1, cause: String::from("disk full") })
    );
    assert_eq!(
        db.schema,
        strings(&["CREATE TABLE a1(id BIGINT)", "CREATE TABLE b1(id BIGINT)"])
    );
    assert!(db.history.is_empty());
    assert_eq!(db.trace.len(), 3);
}

#[test]
fn apply_all_of_nothing_is_over_at_once() {
    let table = SqlxPgHistoryTable::new(String::from("history"));
    match apply_all(&table, vec![], 0) {
        Progress::Done(report) => assert_eq!(report, Report { applied: vec![], failure: None }),
        Progress::Next { action, .. } => panic!("an empty plan hands out {:?}", action),
    }
}

#[test]
fn apply_all_starts_each_migration_when_the_one_before_is_done() {
    let table = SqlxPgHistoryTable::new(String::from("history"));
    let mut first = migration(1, true);
    first.statements.truncate(1);
    let mut second = migration(2, true);
    second.statements.truncate(1);
    let Progress::Next { runner, .. } = apply_all(&table, vec![first, second], 100) else {
        panic!("the run is over before it began");
    };
    let Progress::Next { runner, .. } = runner.step(&table, Event::Done, 110) else {
        panic!("the run is over after the first statement");
    };
    // The insert of the first migration ends at 500: the second starts there.
    let Progress::Next { runner, action } = runner.step(&table, Event::Done, 500) else {
        panic!("the run is over after the first migration");
    };
    assert_eq!(
        action,
        Action::Execute {
            statement: String::from("CREATE TABLE a2(id BIGINT)"),
            in_transaction: false,
        }
    );
    let Progress::Next { runner, .. } = runner.step(&table, Event::Done, 530) else {
        panic!("the run is over after the second statement");
    };
    let Progress::Done(report) = runner.step(&table, Event::Done, 900) else {
        panic!("the run goes on after the last insert");
    };
    assert_eq!(report.failure, None);
    assert_eq!(report.applied[0].duration_ms, 10);
    assert_eq!(report.applied[1].duration_ms, 30);
}

#[test]
fn history_agrees_with_the_declarations_after_apply_all() {
    let definitions = vec![migration(2, true), migration(1, false), failing(3, false)];
    let sources = || definitions.iter().map(|m| m.source()).collect::<Vec<_>>();
    let mut db = Db::new();
    assert_eq!(Validate::run_validation(sources(), db.history.clone()), Ok(()));
    let report = db.migrate(&definitions);
    assert_eq!(report.applied.len(), 2);
    assert_eq!(report.failure.unwrap().version(), Some(3));
    assert_eq!(db.versions(), vec![1, 2]);
    assert_eq!(Validate::run_validation(sources(), db.history.clone()), Ok(()));
}

#[test]
fn apply_all_takes_the_plan_in_the_order_given() {
    let mut db = Db::new();
    let report = db.apply_all(vec![migration(2, true), migration(1, true)]);
    assert_eq!(report.failure, None);
    assert_eq!(db.versions(), vec![2, 1]);
    assert_eq!(current_version(&db.history), Some(2));
}

#[test]
fn apply_pending_refuses_a_repeated_version() {
    let table = SqlxPgHistoryTable::new(String::from("history"));
    let definitions = vec![migration(1, false), migration(2, false), migration(1, true)];
    match apply_pending(&table, &definitions, &vec![], 0) {
        Err(error) => assert_eq!(error, Error::DuplicateVersion { version: 1 }),
        Ok(_) => panic!("a repeated version was accepted"),
    }
}

#[test]
fn apply_pending_opens_on_the_lowest_pending_version() {
    let table = SqlxPgHistoryTable::new(String::from("history"));
    let definitions = vec![migration(3, true), migration(2, true), migration(1, true)];
    let rows = vec![migration(1, true).new_applied(5).into_existing()];
    match apply_pending(&table, &definitions, &rows, 0) {
        Ok(Progress::Next { action, .. }) => assert_eq!(
            action,
            Action::Execute {
                statement: String::from("CREATE TABLE a2(id BIGINT)"),
                in_transaction: false,
            }
        ),
        Ok(Progress::Done(report)) => panic!("nothing to do: {:?}", report),
        Err(error) => panic!("refused: {:?}", error),
    }
}
