//! Applying one migration, as a sequence of decisions.
//!
//! The engine itself never touches a connection. It says which action comes
//! next; the backend performs it and reports how it went and what the clock
//! shows; the engine then says what follows. [`apply`] opens such a run and
//! [`ApplyRun::step`] continues it, until the run is [`Step::Done`].
//!
//! A transactional run goes begin, the statements in their order, the
//! history row, commit, and abandons the transaction as soon as anything
//! fails. A non-transactional run goes through the statements and then the
//! history row, each on its own: after a failed insert the statements have
//! taken effect and the history table does not show them, which the run
//! reports as [`Error::Unrecorded`].

use crate::engine::insert_new_applied;
use crate::error::{Error, ErrorView};
use crate::history::{record_bindings, HistoryTable, Query, QueryView};
use crate::migration::{AppliedMigration, Migration, MigrationView, RecordView};
use vstd::prelude::*;

verus! {

/// The two ways to apply a migration.
#[derive(Debug, Clone, Copy, PartialEq, Eq, Structural)]
pub enum ApplyMode {
    /// Statements and history row inside one transaction.
    Transactional,
    /// Statements and history row each on their own.
    NonTransactional,
}

impl ApplyMode {
    /// The mode that a migration asks for.
    pub open spec fn spec_of(migration: MigrationView) -> ApplyMode {
        if migration.no_tx {
            ApplyMode::NonTransactional
        } else {
            ApplyMode::Transactional
        }
    }

    /// Whether the actions of a run in this mode belong to a transaction.
    pub open spec fn in_transaction(self) -> bool {
        self == ApplyMode::Transactional
    }

    /// The mode that `migration` asks for: non-transactional where it is
    /// marked `no_tx`, transactional otherwise.
    pub fn of(migration: &Migration) -> (mode: ApplyMode)
        ensures
            mode == ApplyMode::spec_of(migration@),
    {
        if migration.no_tx {
            ApplyMode::NonTransactional
        } else {
            ApplyMode::Transactional
        }
    }
}

/// How the action that the engine asked for went.
#[derive(Debug, PartialEq, Eq)]
pub enum Event {
    /// It succeeded.
    Done,
    /// It failed; the text is the driver's error.
    Failed(String),
}

/// The mathematical value of an [`Event`].
pub enum EventView {
    Done,
    Failed(Seq<char>),
}

impl View for Event {
    type V = EventView;

    open spec fn view(&self) -> EventView {
        match *self {
            Event::Done => EventView::Done,
            Event::Failed(cause) => EventView::Failed(cause@),
        }
    }
}

/// What the backend is to do next.
#[derive(Debug, PartialEq, Eq)]
pub enum Action {
    /// Open a transaction.
    Begin,
    /// Execute `statement` as it stands, unprepared; on the open
    /// transaction where `in_transaction` holds, else on the pool.
    Execute { statement: String, in_transaction: bool },
    /// Execute the insert of the history row with its bindings; on the open
    /// transaction where `in_transaction` holds, else on the pool.
    Record { query: Query, in_transaction: bool },
    /// Commit the open transaction.
    Commit,
    /// Abandon the open transaction.
    Rollback,
}

/// The mathematical value of an [`Action`].
pub enum ActionView {
    Begin,
    Execute { statement: Seq<char>, in_transaction: bool },
    Record { query: QueryView, in_transaction: bool },
    Commit,
    Rollback,
}

impl View for Action {
    type V = ActionView;

    open spec fn view(&self) -> ActionView {
        match *self {
            Action::Begin => ActionView::Begin,
            Action::Execute { statement, in_transaction } => ActionView::Execute {
                statement: statement@,
                in_transaction,
            },
            Action::Record { query, in_transaction } => ActionView::Record {
                query: query@,
                in_transaction,
            },
            Action::Commit => ActionView::Commit,
            Action::Rollback => ActionView::Rollback,
        }
    }
}

/// Which answer a run is waiting for.
enum Stage {
    Beginning,
    Executing { index: usize, statement: String },
    Recording { applied: AppliedMigration },
    Committing { applied: AppliedMigration },
    RollingBack { error: Error },
}

/// Which answer a run is waiting for.
pub enum StageView {
    /// For the transaction to open.
    Beginning,
    /// For statement number `index`, whose text is `statement`.
    Executing { index: nat, statement: Seq<char> },
    /// For the insert of the history row of `applied`.
    Recording { applied: RecordView },
    /// For the commit, after which `applied` is the result.
    Committing { applied: RecordView },
    /// For the transaction to be abandoned, after which `error` is the
    /// result.
    RollingBack { error: ErrorView },
}

impl View for Stage {
    type V = StageView;

    closed spec fn view(&self) -> StageView {
        match *self {
            Stage::Beginning => StageView::Beginning,
            Stage::Executing { index, statement } => StageView::Executing {
                index: index as nat,
                statement: statement@,
            },
            Stage::Recording { applied } => StageView::Recording { applied: applied@ },
            Stage::Committing { applied } => StageView::Committing { applied: applied@ },
            Stage::RollingBack { error } => StageView::RollingBack { error: error@ },
        }
    }
}

/// A run that is under way: one action has been handed out and its answer
/// is awaited.
pub struct ApplyRun {
    mode: ApplyMode,
    stage: Stage,
    started_ms: u128,
}

/// The mathematical value of an [`ApplyRun`]: its mode, the answer it waits
/// for, and what the clock showed when the first statement was handed out.
pub struct ApplyRunView {
    pub mode: ApplyMode,
    pub stage: StageView,
    pub started_ms: nat,
}

impl View for ApplyRun {
    type V = ApplyRunView;

    closed spec fn view(&self) -> ApplyRunView {
        ApplyRunView {
            mode: self.mode,
            stage: self.stage@,
            started_ms: self.started_ms as nat,
        }
    }
}

/// Where a run stands after a decision.
pub enum Step {
    /// The backend is to perform `action` and to hand its outcome to `run`.
    Next { run: ApplyRun, action: Action },
    /// The run is over: the migration is applied and recorded, or it failed.
    Done(Result<AppliedMigration, Error>),
}

/// The mathematical value of a [`Step`].
pub enum StepView {
    Next { run: ApplyRunView, action: ActionView },
    Done(Result<RecordView, ErrorView>),
}

impl View for Step {
    type V = StepView;

    open spec fn view(&self) -> StepView {
        match *self {
            Step::Next { run, action } => StepView::Next { run: run@, action: action@ },
            Step::Done(Ok(applied)) => StepView::Done(Ok(applied@)),
            Step::Done(Err(error)) => StepView::Done(Err(error@)),
        }
    }
}

/// A run and the action it has handed out, as the step that they make.
pub open spec fn next_view(next: (ApplyRun, Action)) -> StepView {
    StepView::Next { run: next.0@, action: next.1@ }
}

/// The milliseconds from `started_ms` to `now_ms` on a clock that does not
/// go back; none where it did.
pub open spec fn elapsed_ms(started_ms: nat, now_ms: nat) -> nat {
    if now_ms >= started_ms {
        (now_ms - started_ms) as nat
    } else {
        0
    }
}

/// The duration that is recorded for a span of `elapsed` milliseconds: the
/// number itself as far as it fits, and its low 64 bits beyond that.
pub open spec fn recorded_duration(elapsed: nat) -> int {
    (elapsed as i64) as int
}

/// A span that fits the column is recorded as it is.
pub proof fn lemma_recorded_duration_fits(elapsed: nat)
    requires
        elapsed <= i64::MAX,
    ensures
        recorded_duration(elapsed) == elapsed,
{
}

/// The step that hands out the insert of the history row, for a migration
/// whose statements ran from `started_ms` to `now_ms`.
pub open spec fn record_step<H: HistoryTable>(
    history: &H,
    migration: MigrationView,
    mode: ApplyMode,
    started_ms: nat,
    now_ms: nat,
) -> StepView {
    let applied = migration.applied(recorded_duration(elapsed_ms(started_ms, now_ms)));
    StepView::Next {
        run: ApplyRunView { mode, stage: StageView::Recording { applied }, started_ms },
        action: ActionView::Record {
            query: QueryView {
                sql: history.spec_insert_into_query(applied),
                bindings: record_bindings(applied),
            },
            in_transaction: mode.in_transaction(),
        },
    }
}

/// The step that hands out statement number `index`.
pub open spec fn execute_step(
    migration: MigrationView,
    mode: ApplyMode,
    started_ms: nat,
    index: nat,
) -> StepView {
    StepView::Next {
        run: ApplyRunView {
            mode,
            stage: StageView::Executing { index, statement: migration.statements[index as int] },
            started_ms,
        },
        action: ActionView::Execute {
            statement: migration.statements[index as int],
            in_transaction: mode.in_transaction(),
        },
    }
}

/// The step that starts the clock at `now_ms` and hands out the first
/// statement; for a migration without statements, the insert at once.
pub open spec fn first_statement_step<H: HistoryTable>(
    history: &H,
    migration: MigrationView,
    mode: ApplyMode,
    now_ms: nat,
) -> StepView {
    if migration.statements.len() > 0 {
        execute_step(migration, mode, now_ms, 0)
    } else {
        record_step(history, migration, mode, now_ms, now_ms)
    }
}

/// The step after a failure: a transactional run abandons its transaction
/// before it reports `error`, a non-transactional run reports it at once.
pub open spec fn failure_step(mode: ApplyMode, started_ms: nat, error: ErrorView) -> StepView {
    match mode {
        ApplyMode::Transactional => StepView::Next {
            run: ApplyRunView { mode, stage: StageView::RollingBack { error }, started_ms },
            action: ActionView::Rollback,
        },
        ApplyMode::NonTransactional => StepView::Done(Err(error)),
    }
}

/// The first step of a run: a transactional run opens its transaction, a
/// non-transactional run starts on its statements.
pub open spec fn start_spec<H: HistoryTable>(
    history: &H,
    migration: MigrationView,
    mode: ApplyMode,
    now_ms: nat,
) -> StepView {
    match mode {
        ApplyMode::Transactional => StepView::Next {
            run: ApplyRunView { mode, stage: StageView::Beginning, started_ms: now_ms },
            action: ActionView::Begin,
        },
        ApplyMode::NonTransactional => first_statement_step(history, migration, mode, now_ms),
    }
}

/// The step that follows when the action that `run` waits for has ended as
/// `event` says, at `now_ms` on the clock.
pub open spec fn step_spec<H: HistoryTable>(
    history: &H,
    migration: MigrationView,
    run: ApplyRunView,
    event: EventView,
    now_ms: nat,
) -> StepView {
    match run.stage {
        StageView::Beginning => match event {
            EventView::Done => first_statement_step(history, migration, run.mode, now_ms),
            EventView::Failed(cause) => StepView::Done(
                Err(ErrorView::Begin { version: migration.version, cause }),
            ),
        },
        StageView::Executing { index, statement } => match event {
            EventView::Done => if index + 1 < migration.statements.len() {
                execute_step(migration, run.mode, run.started_ms, index + 1)
            } else {
                record_step(history, migration, run.mode, run.started_ms, now_ms)
            },
            EventView::Failed(cause) => failure_step(
                run.mode,
                run.started_ms,
                ErrorView::Statement { version: migration.version, statement, cause },
            ),
        },
        StageView::Recording { applied } => match event {
            EventView::Done => match run.mode {
                ApplyMode::Transactional => StepView::Next {
                    run: ApplyRunView {
                        mode: run.mode,
                        stage: StageView::Committing { applied },
                        started_ms: run.started_ms,
                    },
                    action: ActionView::Commit,
                },
                ApplyMode::NonTransactional => StepView::Done(Ok(applied)),
            },
            EventView::Failed(cause) => match run.mode {
                ApplyMode::Transactional => failure_step(
                    run.mode,
                    run.started_ms,
                    ErrorView::Record { version: migration.version, cause },
                ),
                ApplyMode::NonTransactional => StepView::Done(
                    Err(ErrorView::Unrecorded { version: migration.version, cause }),
                ),
            },
        },
        StageView::Committing { applied } => match event {
            EventView::Done => StepView::Done(Ok(applied)),
            EventView::Failed(cause) => StepView::Done(
                Err(ErrorView::Commit { version: migration.version, cause }),
            ),
        },
        StageView::RollingBack { error } => StepView::Done(Err(error)),
    }
}

/// The duration recorded for statements that ran from `started_ms` to
/// `now_ms`.
fn duration_between(started_ms: u128, now_ms: u128) -> (duration_ms: i64)
    ensures
        duration_ms == recorded_duration(elapsed_ms(started_ms as nat, now_ms as nat)),
{
    let elapsed: u128 = if now_ms >= started_ms {
        now_ms - started_ms
    } else {
        0
    };
    #[verifier::truncate]
    (elapsed as i64)
}

fn record<H: HistoryTable>(
    history: &H,
    migration: &Migration,
    mode: ApplyMode,
    started_ms: u128,
    now_ms: u128,
) -> (next: (ApplyRun, Action))
    ensures
        next_view(next) == record_step(
            history,
            migration@,
            mode,
            started_ms as nat,
            now_ms as nat,
        ),
{
    let applied = migration.new_applied(duration_between(started_ms, now_ms));
    let query = insert_new_applied(history, &applied);
    let in_transaction = match mode {
        ApplyMode::Transactional => true,
        ApplyMode::NonTransactional => false,
    };
    (
        ApplyRun { mode, stage: Stage::Recording { applied }, started_ms },
        Action::Record { query, in_transaction },
    )
}

fn execute(migration: &Migration, mode: ApplyMode, started_ms: u128, index: usize) -> (next: (
    ApplyRun,
    Action,
))
    requires
        index < migration.statements.len(),
    ensures
        next_view(next) == execute_step(migration@, mode, started_ms as nat, index as nat),
{
    let in_transaction = match mode {
        ApplyMode::Transactional => true,
        ApplyMode::NonTransactional => false,
    };
    (
        ApplyRun {
            mode,
            stage: Stage::Executing { index, statement: migration.statements[index].clone() },
            started_ms,
        },
        Action::Execute { statement: migration.statements[index].clone(), in_transaction },
    )
}

fn first_statement<H: HistoryTable>(
    history: &H,
    migration: &Migration,
    mode: ApplyMode,
    now_ms: u128,
) -> (next: (ApplyRun, Action))
    ensures
        next_view(next) == first_statement_step(history, migration@, mode, now_ms as nat),
{
    if migration.statements.len() > 0 {
        execute(migration, mode, now_ms, 0)
    } else {
        record(history, migration, mode, now_ms, now_ms)
    }
}

fn failure(mode: ApplyMode, started_ms: u128, error: Error) -> (step: Step)
    ensures
        step@ == failure_step(mode, started_ms as nat, error@),
{
    match mode {
        ApplyMode::Transactional => Step::Next {
            run: ApplyRun { mode, stage: Stage::RollingBack { error }, started_ms },
            action: Action::Rollback,
        },
        ApplyMode::NonTransactional => Step::Done(Err(error)),
    }
}

/// Opens a run that applies `migration` in the mode it asks for, and says
/// what the backend is to do first.
///
/// `now_ms` is the reading of a millisecond clock that the backend keeps for
/// the whole run.
pub fn apply<H: HistoryTable>(history: &H, migration: &Migration, now_ms: u128) -> (opened: (
    ApplyRun,
    Action,
))
    ensures
        next_view(opened) == start_spec(
            history,
            migration@,
            ApplyMode::spec_of(migration@),
            now_ms as nat,
        ),
{
    if migration.no_tx {
        apply_no_tx(history, migration, now_ms)
    } else {
        apply_tx(history, migration, now_ms)
    }
}

/// Opens a run that applies `migration` inside one transaction.
pub fn apply_tx<H: HistoryTable>(history: &H, migration: &Migration, now_ms: u128) -> (opened: (
    ApplyRun,
    Action,
))
    ensures
        next_view(opened) == start_spec(
            history,
            migration@,
            ApplyMode::Transactional,
            now_ms as nat,
        ),
{
    (
        ApplyRun { mode: ApplyMode::Transactional, stage: Stage::Beginning, started_ms: now_ms },
        Action::Begin,
    )
}

/// Opens a run that applies `migration` outside of any transaction.
pub fn apply_no_tx<H: HistoryTable>(history: &H, migration: &Migration, now_ms: u128) -> (opened:
    (ApplyRun, Action))
    ensures
        next_view(opened) == start_spec(
            history,
            migration@,
            ApplyMode::NonTransactional,
            now_ms as nat,
        ),
{
    first_statement(history, migration, ApplyMode::NonTransactional, now_ms)
}

impl ApplyRun {
    /// The mode of the run.
    pub fn mode(&self) -> (mode: ApplyMode)
        ensures
            mode == self@.mode,
    {
        self.mode
    }

    /// Continues the run: the action it had handed out has ended as `event`
    /// says, and the clock shows `now_ms`.
    ///
    /// `history` and `migration` are those that the run was opened with.
    pub fn step<H: HistoryTable>(
        self,
        history: &H,
        migration: &Migration,
        event: Event,
        now_ms: u128,
    ) -> (step: Step)
        ensures
            step@ == step_spec(history, migration@, self@, event@, now_ms as nat),
    {
        let ApplyRun { mode, stage, started_ms } = self;
        match stage {
            Stage::Beginning => match event {
                Event::Done => {
                    let (run, action) = first_statement(history, migration, mode, now_ms);
                    Step::Next { run, action }
                },
                Event::Failed(cause) => Step::Done(
                    Err(Error::Begin { version: migration.version, cause }),
                ),
            },
            Stage::Executing { index, statement } => match event {
                Event::Done => {
                    let count = migration.statements.len();
                    let (run, action) = if count > 0 && index < count - 1 {
                        execute(migration, mode, started_ms, index + 1)
                    } else {
                        record(history, migration, mode, started_ms, now_ms)
                    };
                    Step::Next { run, action }
                },
                Event::Failed(cause) => failure(
                    mode,
                    started_ms,
                    Error::Statement { version: migration.version, statement, cause },
                ),
            },
            Stage::Recording { applied } => match event {
                Event::Done => match mode {
                    ApplyMode::Transactional => Step::Next {
                        run: ApplyRun { mode, stage: Stage::Committing { applied }, started_ms },
                        action: Action::Commit,
                    },
                    ApplyMode::NonTransactional => Step::Done(Ok(applied)),
                },
                Event::Failed(cause) => match mode {
                    ApplyMode::Transactional => failure(
                        mode,
                        started_ms,
                        Error::Record { version: migration.version, cause },
                    ),
                    ApplyMode::NonTransactional => Step::Done(
                        Err(Error::Unrecorded { version: migration.version, cause }),
                    ),
                },
            },
            Stage::Committing { applied } => match event {
                Event::Done => Step::Done(Ok(applied)),
                Event::Failed(cause) => Step::Done(
                    Err(Error::Commit { version: migration.version, cause }),
                ),
            },
            Stage::RollingBack { error } => Step::Done(Err(error)),
        }
    }
}

} // verus!
