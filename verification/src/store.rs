//! What a run does to a database.
//!
//! [`Store`] is a database reduced to what the engine cares about: the
//! statements that have taken effect, the rows of the history table, and
//! the transaction that is open, if one is. [`Store::after`] says what each
//! action does to it; [`run_from`] lets a run and a store take turns.
//!
//! The laws below are stated of every store and of every course a run can
//! take, whatever succeeds and whatever fails. They hold of a database as
//! far as it keeps to [`Store::after`]: what fails changes nothing, and
//! what a transaction has done shows at its commit or never.

use crate::apply::{
    elapsed_ms, execute_step, record_step, recorded_duration, start_spec, step_spec, ActionView,
    ApplyMode, EventView, StageView, StepView,
};
use crate::error::ErrorView;
use crate::history::{bound_record, record_bindings, HistoryTable};
use crate::migration::{MigrationView, RecordView};
use crate::version::current_version_of;
use vstd::prelude::*;

verus! {

/// What an open transaction holds back until it is committed.
pub struct Pending {
    pub schema: Seq<Seq<char>>,
    pub history: Seq<RecordView>,
}

/// A database, as far as the engine is concerned.
pub struct Store {
    /// The statements that have taken effect, in their order.
    pub schema: Seq<Seq<char>>,
    /// The rows of the history table.
    pub history: Seq<RecordView>,
    /// The open transaction, if there is one.
    pub pending: Option<Pending>,
}

/// The outcome of one action, and what the clock showed when it was known.
pub struct Tick {
    pub event: EventView,
    pub now_ms: nat,
}

impl Store {
    /// The store once `action` has ended as `event` says.
    ///
    /// An action that failed has changed nothing. What succeeds inside a
    /// transaction is held back until the commit; a commit that fails and a
    /// rollback both drop what was held back.
    pub open spec fn after(self, action: ActionView, event: EventView) -> Store {
        match action {
            ActionView::Begin => match event {
                EventView::Done => Store {
                    schema: self.schema,
                    history: self.history,
                    pending: Some(Pending { schema: Seq::empty(), history: Seq::empty() }),
                },
                EventView::Failed(_) => self,
            },
            ActionView::Execute { statement, in_transaction } => match event {
                EventView::Done => self.with(in_transaction, seq![statement], Seq::empty()),
                EventView::Failed(_) => self,
            },
            ActionView::Record { query, in_transaction } => match (
                event,
                bound_record(query.bindings),
            ) {
                (EventView::Done, Some(row)) => self.with(in_transaction, Seq::empty(), seq![row]),
                _ => self,
            },
            ActionView::Commit => match (event, self.pending) {
                (EventView::Done, Some(pending)) => Store {
                    schema: self.schema + pending.schema,
                    history: self.history + pending.history,
                    pending: None,
                },
                _ => Store { schema: self.schema, history: self.history, pending: None },
            },
            ActionView::Rollback => Store {
                schema: self.schema,
                history: self.history,
                pending: None,
            },
        }
    }

    /// The store with `statements` executed and `rows` inserted: held back
    /// by the open transaction where `in_transaction` holds, in effect at
    /// once where it does not. Without an open transaction nothing can be
    /// done inside one.
    pub open spec fn with(
        self,
        in_transaction: bool,
        statements: Seq<Seq<char>>,
        rows: Seq<RecordView>,
    ) -> Store {
        if in_transaction {
            match self.pending {
                Some(pending) => Store {
                    schema: self.schema,
                    history: self.history,
                    pending: Some(
                        Pending {
                            schema: pending.schema + statements,
                            history: pending.history + rows,
                        },
                    ),
                },
                None => self,
            }
        } else {
            Store {
                schema: self.schema + statements,
                history: self.history + rows,
                pending: self.pending,
            }
        }
    }

    /// The store with `migration` applied and recorded as `applied`.
    pub open spec fn migrated(self, migration: MigrationView, applied: RecordView) -> Store {
        Store {
            schema: self.schema + migration.statements,
            history: self.history.push(applied),
            pending: self.pending,
        }
    }
}

/// A run and a store taking turns: the store changes as the action that the
/// run has handed out ends, the run decides on what the tick reports. This
/// goes on until the run is over or no tick is left.
pub open spec fn run_from<H: HistoryTable>(
    history: &H,
    migration: MigrationView,
    step: StepView,
    store: Store,
    ticks: Seq<Tick>,
) -> (StepView, Store)
    decreases ticks.len(),
{
    match step {
        StepView::Done(_) => (step, store),
        StepView::Next { run, action } => if ticks.len() == 0 {
            (step, store)
        } else {
            run_from(
                history,
                migration,
                step_spec(history, migration, run, ticks[0].event, ticks[0].now_ms),
                store.after(action, ticks[0].event),
                ticks.drop_first(),
            )
        },
    }
}

/// The run that applies `migration` in `mode`, opened at `now_ms` on a
/// database that is `store`, and taken as far as `ticks` reach.
pub open spec fn run<H: HistoryTable>(
    history: &H,
    migration: MigrationView,
    mode: ApplyMode,
    now_ms: nat,
    store: Store,
    ticks: Seq<Tick>,
) -> (StepView, Store) {
    run_from(history, migration, start_spec(history, migration, mode, now_ms), store, ticks)
}

/// Whether `applied` is a record of `migration`: its version, description
/// and text, with whatever duration.
pub open spec fn records(migration: MigrationView, applied: RecordView) -> bool {
    applied == migration.applied(applied.duration_ms)
}

/// What holds between a transactional run and the store at every turn:
/// nothing outside the transaction has changed, and the transaction holds
/// back exactly what has run so far.
pub open spec fn transactional_course(
    migration: MigrationView,
    before: Store,
    step: StepView,
    store: Store,
) -> bool {
    match step {
        StepView::Next { run, action } => {
            &&& run.mode == ApplyMode::Transactional
            &&& store.schema == before.schema
            &&& store.history == before.history
            &&& match run.stage {
                StageView::Beginning => action == ActionView::Begin && store.pending is None,
                StageView::Executing { index, statement } => {
                    &&& index < migration.statements.len()
                    &&& action == (ActionView::Execute { statement, in_transaction: true })
                    &&& statement == migration.statements[index as int]
                    &&& store.pending == Some(
                        Pending {
                            schema: migration.statements.take(index as int),
                            history: Seq::empty(),
                        },
                    )
                },
                StageView::Recording { applied } => {
                    &&& action matches ActionView::Record { query, in_transaction }
                    &&& in_transaction
                    &&& query.bindings == record_bindings(applied)
                    &&& records(migration, applied)
                    &&& store.pending == Some(
                        Pending { schema: migration.statements, history: Seq::empty() },
                    )
                },
                StageView::Committing { applied } => {
                    &&& action == ActionView::Commit
                    &&& records(migration, applied)
                    &&& store.pending == Some(
                        Pending { schema: migration.statements, history: seq![applied] },
                    )
                },
                StageView::RollingBack { error } => {
                    &&& action == ActionView::Rollback
                    &&& error.version() == Some(migration.version)
                },
            }
        },
        StepView::Done(Ok(applied)) => {
            &&& records(migration, applied)
            &&& store == before.migrated(migration, applied)
        },
        StepView::Done(Err(error)) => {
            &&& store == before
            &&& error.version() == Some(migration.version)
        },
    }
}

/// One turn keeps a transactional run on its course.
pub proof fn lemma_transactional_turn<H: HistoryTable>(
    history: &H,
    migration: MigrationView,
    before: Store,
    step: StepView,
    store: Store,
    tick: Tick,
)
    requires
        before.pending is None,
        transactional_course(migration, before, step, store),
        step is Next,
    ensures
        transactional_course(
            migration,
            before,
            step_spec(history, migration, step->run, tick.event, tick.now_ms),
            store.after(step->action, tick.event),
        ),
{
    let run = step->run;
    let statements = migration.statements;
    match run.stage {
        StageView::Beginning => {
            if tick.event is Done {
                assert(statements.take(0) =~= Seq::empty());
                if statements.len() == 0 {
                    assert(statements =~= Seq::empty());
                }
            }
        },
        StageView::Executing { index, statement } => {
            if tick.event is Done {
                assert(statements.take(index as int) + seq![statement] =~= statements.take(
                    index as int + 1,
                ));
                assert(Seq::<RecordView>::empty() + Seq::<RecordView>::empty() =~= Seq::<
                    RecordView,
                >::empty());
                if index + 1 >= statements.len() {
                    assert(statements.take(index as int + 1) =~= statements);
                }
            }
        },
        StageView::Recording { applied } => {
            if tick.event is Done {
                assert(statements + Seq::<Seq<char>>::empty() =~= statements);
                assert(Seq::<RecordView>::empty() + seq![applied] =~= seq![applied]);
            }
        },
        StageView::Committing { applied } => {
            if tick.event is Done {
                assert(before.history + seq![applied] =~= before.history.push(applied));
            }
        },
        StageView::RollingBack { error } => {},
    }
}

/// A transactional run stays on its course however long it goes on.
proof fn lemma_transactional_course<H: HistoryTable>(
    history: &H,
    migration: MigrationView,
    before: Store,
    step: StepView,
    store: Store,
    ticks: Seq<Tick>,
)
    requires
        before.pending is None,
        transactional_course(migration, before, step, store),
    ensures
        transactional_course(
            migration,
            before,
            run_from(history, migration, step, store, ticks).0,
            run_from(history, migration, step, store, ticks).1,
        ),
    decreases ticks.len(),
{
    if step is Next && ticks.len() > 0 {
        lemma_transactional_turn(history, migration, before, step, store, ticks[0]);
        lemma_transactional_course(
            history,
            migration,
            before,
            step_spec(history, migration, step->run, ticks[0].event, ticks[0].now_ms),
            store.after(step->action, ticks[0].event),
            ticks.drop_first(),
        );
    }
}

/// A transactional apply is all or nothing.
///
/// Whatever the outcomes of its actions are, and however far the run has
/// come: while it is under way, and once it has failed, the schema and the
/// history table are what they were before; once it has succeeded, all
/// statements of the migration have taken effect and its record is in the
/// history table. A run that is over leaves no transaction open.
pub proof fn lemma_transactional_apply_is_atomic<H: HistoryTable>(
    history: &H,
    migration: MigrationView,
    now_ms: nat,
    store: Store,
    ticks: Seq<Tick>,
)
    requires
        store.pending is None,
    ensures
        ({
            let (step, after) = run(
                history,
                migration,
                ApplyMode::Transactional,
                now_ms,
                store,
                ticks,
            );
            match step {
                StepView::Next { .. } => after.schema == store.schema && after.history
                    == store.history,
                StepView::Done(Ok(applied)) => records(migration, applied) && after
                    == store.migrated(migration, applied),
                StepView::Done(Err(error)) => after == store && error.version() == Some(
                    migration.version,
                ),
            }
        }),
{
    lemma_transactional_course(
        history,
        migration,
        store,
        start_spec(history, migration, ApplyMode::Transactional, now_ms),
        store,
        ticks,
    );
}

/// What holds between a non-transactional run and the store at every turn:
/// each statement that has run has taken effect, and the history table
/// changes with the last action only.
pub open spec fn non_transactional_course(
    migration: MigrationView,
    before: Store,
    step: StepView,
    store: Store,
) -> bool {
    &&& store.pending == before.pending
    &&& match step {
        StepView::Next { run, action } => {
            &&& run.mode == ApplyMode::NonTransactional
            &&& store.history == before.history
            &&& match run.stage {
                StageView::Executing { index, statement } => {
                    &&& index < migration.statements.len()
                    &&& action == (ActionView::Execute { statement, in_transaction: false })
                    &&& statement == migration.statements[index as int]
                    &&& store.schema == before.schema + migration.statements.take(index as int)
                },
                StageView::Recording { applied } => {
                    &&& action matches ActionView::Record { query, in_transaction }
                    &&& !in_transaction
                    &&& query.bindings == record_bindings(applied)
                    &&& records(migration, applied)
                    &&& store.schema == before.schema + migration.statements
                },
                _ => false,
            }
        },
        StepView::Done(Ok(applied)) => {
            &&& records(migration, applied)
            &&& store == before.migrated(migration, applied)
        },
        StepView::Done(Err(ErrorView::Statement { version, statement, cause })) => {
            &&& version == migration.version
            &&& store.history == before.history
            &&& exists|index: int|
                {
                    &&& 0 <= index < migration.statements.len()
                    &&& statement == #[trigger] migration.statements[index]
                    &&& store.schema == before.schema + migration.statements.take(index)
                }
        },
        StepView::Done(Err(ErrorView::Unrecorded { version, cause })) => {
            &&& version == migration.version
            &&& store.history == before.history
            &&& store.schema == before.schema + migration.statements
        },
        StepView::Done(Err(_)) => false,
    }
}

/// One turn keeps a non-transactional run on its course.
pub proof fn lemma_non_transactional_turn<H: HistoryTable>(
    history: &H,
    migration: MigrationView,
    before: Store,
    step: StepView,
    store: Store,
    tick: Tick,
)
    requires
        non_transactional_course(migration, before, step, store),
        step is Next,
    ensures
        non_transactional_course(
            migration,
            before,
            step_spec(history, migration, step->run, tick.event, tick.now_ms),
            store.after(step->action, tick.event),
        ),
{
    let run = step->run;
    let statements = migration.statements;
    match run.stage {
        StageView::Executing { index, statement } => {
            if tick.event is Done {
                assert(before.schema + statements.take(index as int) + seq![statement]
                    =~= before.schema + statements.take(index as int + 1));
                assert(before.history + Seq::<RecordView>::empty() =~= before.history);
                if index + 1 >= statements.len() {
                    assert(statements.take(index as int + 1) =~= statements);
                }
            }
        },
        StageView::Recording { applied } => {
            if tick.event is Done {
                assert(before.schema + statements + Seq::<Seq<char>>::empty() =~= before.schema
                    + statements);
                assert(before.history + seq![applied] =~= before.history.push(applied));
            }
        },
        _ => {},
    }
}

/// A non-transactional run stays on its course however long it goes on.
proof fn lemma_non_transactional_course<H: HistoryTable>(
    history: &H,
    migration: MigrationView,
    before: Store,
    step: StepView,
    store: Store,
    ticks: Seq<Tick>,
)
    requires
        non_transactional_course(migration, before, step, store),
    ensures
        non_transactional_course(
            migration,
            before,
            run_from(history, migration, step, store, ticks).0,
            run_from(history, migration, step, store, ticks).1,
        ),
    decreases ticks.len(),
{
    if step is Next && ticks.len() > 0 {
        lemma_non_transactional_turn(history, migration, before, step, store, ticks[0]);
        lemma_non_transactional_course(
            history,
            migration,
            before,
            step_spec(history, migration, step->run, ticks[0].event, ticks[0].now_ms),
            store.after(step->action, ticks[0].event),
            ticks.drop_first(),
        );
    }
}

/// A non-transactional apply is not atomic, and says so.
///
/// Whatever the outcomes of its actions are, and however far the run has
/// come: the history table is what it was before unless the run has
/// succeeded, so the version that the database stands at does not move.
/// A run that failed on a statement has left the statements before it in
/// effect. A run that failed on the insert of the history row has left all
/// statements in effect, and reports that as [`ErrorView::Unrecorded`]. A
/// run fails in no other way.
pub proof fn lemma_non_transactional_apply_is_not_atomic<H: HistoryTable>(
    history: &H,
    migration: MigrationView,
    now_ms: nat,
    store: Store,
    ticks: Seq<Tick>,
)
    ensures
        ({
            let (step, after) = run(
                history,
                migration,
                ApplyMode::NonTransactional,
                now_ms,
                store,
                ticks,
            );
            &&& non_transactional_course(migration, store, step, after)
            &&& !(step is Done && step->Done_0 is Ok) ==> {
                &&& after.history == store.history
                &&& current_version_of(after.history) == current_version_of(store.history)
            }
            &&& step matches StepView::Done(Err(error)) ==> {
                ||| error is Statement
                ||| error is Unrecorded && after.schema == store.schema + migration.statements
            }
        }),
{
    let statements = migration.statements;
    assert(store.schema + statements.take(0) =~= store.schema);
    if statements.len() == 0 {
        assert(store.schema + statements =~= store.schema);
    }
    lemma_non_transactional_course(
        history,
        migration,
        store,
        start_spec(history, migration, ApplyMode::NonTransactional, now_ms),
        store,
        ticks,
    );
}

/// What holds between a run in `mode` and the store at every turn.
pub open spec fn on_course(
    migration: MigrationView,
    mode: ApplyMode,
    before: Store,
    step: StepView,
    store: Store,
) -> bool {
    match mode {
        ApplyMode::Transactional => transactional_course(migration, before, step, store),
        ApplyMode::NonTransactional => non_transactional_course(migration, before, step, store),
    }
}

/// A run sets out on its course.
pub proof fn lemma_start_is_on_course<H: HistoryTable>(
    history: &H,
    migration: MigrationView,
    mode: ApplyMode,
    now_ms: nat,
    store: Store,
)
    requires
        store.pending is None,
    ensures
        start_spec(history, migration, mode, now_ms) is Next,
        on_course(migration, mode, store, start_spec(history, migration, mode, now_ms), store),
{
    let statements = migration.statements;
    assert(store.schema + statements.take(0) =~= store.schema);
    if statements.len() == 0 {
        assert(store.schema + statements =~= store.schema);
    }
}

/// One turn keeps a run on its course.
pub proof fn lemma_turn_stays_on_course<H: HistoryTable>(
    history: &H,
    migration: MigrationView,
    mode: ApplyMode,
    before: Store,
    step: StepView,
    store: Store,
    tick: Tick,
)
    requires
        before.pending is None,
        on_course(migration, mode, before, step, store),
        step is Next,
    ensures
        on_course(
            migration,
            mode,
            before,
            step_spec(history, migration, step->run, tick.event, tick.now_ms),
            store.after(step->action, tick.event),
        ),
{
    match mode {
        ApplyMode::Transactional => lemma_transactional_turn(
            history,
            migration,
            before,
            step,
            store,
            tick,
        ),
        ApplyMode::NonTransactional => lemma_non_transactional_turn(
            history,
            migration,
            before,
            step,
            store,
            tick,
        ),
    }
}

/// The first `count` ticks all report success.
pub open spec fn all_done(ticks: Seq<Tick>, count: nat) -> bool {
    &&& count <= ticks.len()
    &&& forall|i: int| 0 <= i < count ==> (#[trigger] ticks[i]).event is Done
}

/// One turn of a run that is under way, with a tick at hand.
proof fn lemma_turn<H: HistoryTable>(
    history: &H,
    migration: MigrationView,
    step: StepView,
    store: Store,
    ticks: Seq<Tick>,
)
    requires
        step is Next,
        ticks.len() > 0,
    ensures
        run_from(history, migration, step, store, ticks) == run_from(
            history,
            migration,
            step_spec(history, migration, step->run, ticks[0].event, ticks[0].now_ms),
            store.after(step->action, ticks[0].event),
            ticks.skip(1),
        ),
{
    assert(ticks.drop_first() =~= ticks.skip(1));
}

/// Statements that succeed one after the other take the run from
/// statement `from` to statement `to`, and the store with them.
proof fn lemma_statements_run<H: HistoryTable>(
    history: &H,
    migration: MigrationView,
    mode: ApplyMode,
    started_ms: nat,
    from: nat,
    to: nat,
    store: Store,
    ticks: Seq<Tick>,
)
    requires
        from <= to < migration.statements.len(),
        all_done(ticks, (to - from) as nat),
    ensures
        run_from(history, migration, execute_step(migration, mode, started_ms, from), store, ticks)
            == run_from(
            history,
            migration,
            execute_step(migration, mode, started_ms, to),
            store.with(
                mode.in_transaction(),
                migration.statements.subrange(from as int, to as int),
                Seq::empty(),
            ),
            ticks.skip(to - from),
        ),
    decreases to - from,
{
    let statements = migration.statements;
    let inside = mode.in_transaction();
    let none = Seq::<RecordView>::empty();
    if from == to {
        assert(ticks.skip(0) =~= ticks);
        assert(statements.subrange(from as int, to as int) =~= Seq::empty());
        let same = store.with(inside, Seq::empty(), none);
        assert(same.schema =~= store.schema);
        assert(same.history =~= store.history);
        if inside && store.pending is Some {
            assert(same.pending->0.schema =~= store.pending->0.schema);
            assert(same.pending->0.history =~= store.pending->0.history);
        }
        assert(same == store);
    } else {
        let step = execute_step(migration, mode, started_ms, from);
        assert(ticks[0].event is Done);
        lemma_turn(history, migration, step, store, ticks);
        let next = store.with(inside, seq![statements[from as int]], none);
        let rest = ticks.skip(1);
        assert(all_done(rest, (to - from - 1) as nat)) by {
            assert forall|i: int| 0 <= i < to - from - 1 implies (#[trigger] rest[i]).event
                is Done by {
                assert(rest[i] == ticks[i + 1]);
            }
        }
        lemma_statements_run(
            history,
            migration,
            mode,
            started_ms,
            from + 1,
            to,
            next,
            rest,
        );
        assert(rest.skip(to - from - 1) =~= ticks.skip(to - from));
        let a = next.with(inside, statements.subrange(from as int + 1, to as int), none);
        let b = store.with(inside, statements.subrange(from as int, to as int), none);
        assert(seq![statements[from as int]] + statements.subrange(from as int + 1, to as int)
            =~= statements.subrange(from as int, to as int));
        assert(a.schema =~= b.schema);
        assert(a.history =~= b.history);
        if inside && store.pending is Some {
            assert(a.pending->0.schema =~= b.pending->0.schema);
            assert(a.pending->0.history =~= b.pending->0.history);
        }
        assert(a == b);
    }
}

/// Statements that all succeed take a run from its first statement to the
/// insert of the history row.
proof fn lemma_statements_succeed<H: HistoryTable>(
    history: &H,
    migration: MigrationView,
    mode: ApplyMode,
    started_ms: nat,
    store: Store,
    ticks: Seq<Tick>,
)
    requires
        migration.statements.len() > 0,
        all_done(ticks, migration.statements.len()),
    ensures
        run_from(history, migration, execute_step(migration, mode, started_ms, 0), store, ticks)
            == run_from(
            history,
            migration,
            record_step(
                history,
                migration,
                mode,
                started_ms,
                ticks[migration.statements.len() - 1].now_ms,
            ),
            store.with(mode.in_transaction(), migration.statements, Seq::empty()),
            ticks.skip(migration.statements.len() as int),
        ),
{
    let statements = migration.statements;
    let inside = mode.in_transaction();
    let none = Seq::<RecordView>::empty();
    let last = (statements.len() - 1) as nat;
    lemma_statements_run(history, migration, mode, started_ms, 0, last, store, ticks);
    let store1 = store.with(inside, statements.subrange(0, last as int), none);
    let rest = ticks.skip(last as int);
    assert(rest[0] == ticks[last as int]);
    lemma_turn(history, migration, execute_step(migration, mode, started_ms, last), store1, rest);
    assert(rest.skip(1) =~= ticks.skip(statements.len() as int));
    let a = store1.with(inside, seq![statements[last as int]], none);
    let b = store.with(inside, statements, none);
    assert(statements.subrange(0, last as int) + seq![statements[last as int]] =~= statements);
    assert(a.schema =~= b.schema);
    assert(a.history =~= b.history);
    if inside && store.pending is Some {
        assert(a.pending->0.schema =~= b.pending->0.schema);
        assert(a.pending->0.history =~= b.pending->0.history);
    }
    assert(a == b);
}

/// The number of actions of a run in which nothing fails.
pub open spec fn turns(migration: MigrationView, mode: ApplyMode) -> nat {
    match mode {
        ApplyMode::Transactional => migration.statements.len() + 3,
        ApplyMode::NonTransactional => migration.statements.len() + 1,
    }
}

/// The record that a run in which nothing fails ends with: the duration is
/// taken from the moment the first statement was handed out (for a
/// transactional run, when the transaction had opened) to the moment the
/// last statement had ended; it is zero for a migration without statements.
pub open spec fn record_of_run(
    migration: MigrationView,
    mode: ApplyMode,
    now_ms: nat,
    ticks: Seq<Tick>,
) -> RecordView {
    let count = migration.statements.len() as int;
    let (started_ms, last) = match mode {
        ApplyMode::Transactional => (ticks[0].now_ms, count),
        ApplyMode::NonTransactional => (now_ms, count - 1),
    };
    let ended_ms = if count == 0 {
        started_ms
    } else {
        ticks[last].now_ms
    };
    migration.applied(recorded_duration(elapsed_ms(started_ms, ended_ms)))
}

/// Where every action succeeds, the migration is applied and recorded.
///
/// The run ends after [`turns`] actions with the record of the migration;
/// all statements have taken effect, in their order, and the record is the
/// new last row of the history table.
pub proof fn lemma_apply_succeeds<H: HistoryTable>(
    history: &H,
    migration: MigrationView,
    mode: ApplyMode,
    now_ms: nat,
    store: Store,
    ticks: Seq<Tick>,
)
    requires
        store.pending is None,
        all_done(ticks, turns(migration, mode)),
    ensures
        run(history, migration, mode, now_ms, store, ticks) == (
            StepView::Done(Ok(record_of_run(migration, mode, now_ms, ticks))),
            store.migrated(migration, record_of_run(migration, mode, now_ms, ticks)),
        ),
{
    let statements = migration.statements;
    let count = statements.len();
    let applied = record_of_run(migration, mode, now_ms, ticks);
    let first = start_spec(history, migration, mode, now_ms);
    let none = Seq::<RecordView>::empty();
    match mode {
        ApplyMode::Transactional => {
            // begin
            lemma_turn(history, migration, first, store, ticks);
            let ticks1 = ticks.skip(1);
            let store1 = store.after(ActionView::Begin, ticks[0].event);
            let started_ms = ticks[0].now_ms;
            assert(all_done(ticks1, count)) by {
                assert forall|i: int| 0 <= i < count implies (#[trigger] ticks1[i]).event
                    is Done by {
                    assert(ticks1[i] == ticks[i + 1]);
                }
            }
            // statements
            let ended_ms = if count == 0 {
                started_ms
            } else {
                ticks1[count - 1].now_ms
            };
            let recording = record_step(history, migration, mode, started_ms, ended_ms);
            let store2 = store1.with(true, statements, none);
            let ticks2 = ticks1.skip(count as int);
            if count > 0 {
                lemma_statements_succeed(history, migration, mode, started_ms, store1, ticks1);
                assert(ticks1[count - 1] == ticks[count as int]);
            } else {
                assert(ticks2 =~= ticks1);
                assert(statements =~= Seq::empty());
                assert(store2.pending->0.schema =~= store1.pending->0.schema);
                assert(store2.pending->0.history =~= store1.pending->0.history);
                assert(store2 == store1);
            }
            assert(run(history, migration, mode, now_ms, store, ticks) == run_from(
                history,
                migration,
                recording,
                store2,
                ticks2,
            ));
            // record
            assert(ticks2[0] == ticks[count as int + 1]);
            lemma_turn(history, migration, recording, store2, ticks2);
            let ticks3 = ticks2.skip(1);
            let store3 = store2.with(true, Seq::empty(), seq![applied]);
            // commit
            assert(ticks3[0] == ticks[count as int + 2]);
            let committing = step_spec(
                history,
                migration,
                recording->run,
                ticks2[0].event,
                ticks2[0].now_ms,
            );
            lemma_turn(history, migration, committing, store3, ticks3);
            let store4 = store3.after(ActionView::Commit, ticks3[0].event);
            assert(store4.schema =~= store.schema + statements);
            assert(store4.history =~= store.history.push(applied));
        },
        ApplyMode::NonTransactional => {
            let ended_ms = if count == 0 {
                now_ms
            } else {
                ticks[count - 1].now_ms
            };
            let recording = record_step(history, migration, mode, now_ms, ended_ms);
            let store2 = store.with(false, statements, none);
            let ticks2 = ticks.skip(count as int);
            if count > 0 {
                lemma_statements_succeed(history, migration, mode, now_ms, store, ticks);
            } else {
                assert(ticks2 =~= ticks);
            }
            assert(run(history, migration, mode, now_ms, store, ticks) == run_from(
                history,
                migration,
                recording,
                store2,
                ticks2,
            ));
            assert(ticks2[0] == ticks[count as int]);
            lemma_turn(history, migration, recording, store2, ticks2);
            let store3 = store2.with(false, Seq::empty(), seq![applied]);
            assert(store3.schema =~= store.schema + statements);
            assert(store3.history =~= store.history.push(applied));
        },
    }
}

/// The ticks after the first: they report success up to one less.
proof fn lemma_all_done_skip(ticks: Seq<Tick>, count: nat)
    requires
        count > 0,
        all_done(ticks, count),
    ensures
        all_done(ticks.skip(1), (count - 1) as nat),
{
    let rest = ticks.skip(1);
    assert forall|i: int| 0 <= i < count - 1 implies (#[trigger] rest[i]).event is Done by {
        assert(rest[i] == ticks[i + 1]);
    }
}

/// A transactional apply whose history row cannot be inserted changes
/// nothing.
///
/// The transaction opens and every statement succeeds; the insert of the
/// history row fails with `cause`. The run then abandons the transaction
/// and ends with [`ErrorView::Record`], whatever the rollback reports: no
/// statement of the migration has taken effect and the history table has no
/// new row.
pub proof fn lemma_failed_insert_rolls_back<H: HistoryTable>(
    history: &H,
    migration: MigrationView,
    now_ms: nat,
    store: Store,
    ticks: Seq<Tick>,
    cause: Seq<char>,
)
    requires
        store.pending is None,
        ticks.len() >= migration.statements.len() + 3,
        all_done(ticks, migration.statements.len() + 1),
        ticks[migration.statements.len() as int + 1].event == EventView::Failed(cause),
    ensures
        run(history, migration, ApplyMode::Transactional, now_ms, store, ticks) == (
            StepView::Done(Err(ErrorView::Record { version: migration.version, cause })),
            store,
        ),
{
    let mode = ApplyMode::Transactional;
    let statements = migration.statements;
    let count = statements.len();
    let first = start_spec(history, migration, mode, now_ms);
    let none = Seq::<RecordView>::empty();
    lemma_turn(history, migration, first, store, ticks);
    let ticks1 = ticks.skip(1);
    let store1 = store.after(ActionView::Begin, ticks[0].event);
    let started_ms = ticks[0].now_ms;
    lemma_all_done_skip(ticks, count + 1);
    let ended_ms = if count == 0 {
        started_ms
    } else {
        ticks1[count - 1].now_ms
    };
    let recording = record_step(history, migration, mode, started_ms, ended_ms);
    let store2 = store1.with(true, statements, none);
    let ticks2 = ticks1.skip(count as int);
    if count > 0 {
        lemma_statements_succeed(history, migration, mode, started_ms, store1, ticks1);
    } else {
        assert(ticks2 =~= ticks1);
    }
    assert(run(history, migration, mode, now_ms, store, ticks).0 == run_from(
        history,
        migration,
        recording,
        if count > 0 {
            store2
        } else {
            store1
        },
        ticks2,
    ).0);
    let store2 = if count > 0 {
        store2
    } else {
        store1
    };
    assert(ticks2[0] == ticks[count as int + 1]);
    lemma_turn(history, migration, recording, store2, ticks2);
    let ticks3 = ticks2.skip(1);
    let rolling_back = step_spec(
        history,
        migration,
        recording->run,
        ticks2[0].event,
        ticks2[0].now_ms,
    );
    assert(ticks3[0] == ticks[count as int + 2]);
    lemma_turn(history, migration, rolling_back, store2.after(recording->action, ticks2[0].event), ticks3);
    lemma_transactional_apply_is_atomic(history, migration, now_ms, store, ticks);
}

/// A non-transactional apply whose history row cannot be inserted leaves
/// the schema changed and the history table as it was.
///
/// Every statement succeeds; the insert of the history row fails with
/// `cause`. The run ends with [`ErrorView::Unrecorded`]: all statements of
/// the migration are in effect, the history table has no new row, and the
/// version that the database stands at has not moved.
pub proof fn lemma_failed_insert_leaves_schema_changed<H: HistoryTable>(
    history: &H,
    migration: MigrationView,
    now_ms: nat,
    store: Store,
    ticks: Seq<Tick>,
    cause: Seq<char>,
)
    requires
        ticks.len() > migration.statements.len(),
        all_done(ticks, migration.statements.len()),
        ticks[migration.statements.len() as int].event == EventView::Failed(cause),
    ensures
        run(history, migration, ApplyMode::NonTransactional, now_ms, store, ticks) == (
            StepView::Done(Err(ErrorView::Unrecorded { version: migration.version, cause })),
            Store {
                schema: store.schema + migration.statements,
                history: store.history,
                pending: store.pending,
            },
        ),
        current_version_of(
            run(history, migration, ApplyMode::NonTransactional, now_ms, store, ticks).1.history,
        ) == current_version_of(store.history),
{
    let mode = ApplyMode::NonTransactional;
    let statements = migration.statements;
    let count = statements.len();
    let none = Seq::<RecordView>::empty();
    let ended_ms = if count == 0 {
        now_ms
    } else {
        ticks[count - 1].now_ms
    };
    let recording = record_step(history, migration, mode, now_ms, ended_ms);
    let store2 = store.with(false, statements, none);
    let ticks2 = ticks.skip(count as int);
    if count > 0 {
        lemma_statements_succeed(history, migration, mode, now_ms, store, ticks);
    } else {
        assert(ticks2 =~= ticks);
    }
    assert(run(history, migration, mode, now_ms, store, ticks).0 == run_from(
        history,
        migration,
        recording,
        if count > 0 {
            store2
        } else {
            store
        },
        ticks2,
    ).0);
    let store2 = if count > 0 {
        store2
    } else {
        store
    };
    assert(ticks2[0] == ticks[count as int]);
    lemma_turn(history, migration, recording, store2, ticks2);
    lemma_non_transactional_apply_is_not_atomic(history, migration, now_ms, store, ticks);
}

/// An apply of which a statement fails ends with that statement.
///
/// Statements `0` to `index - 1` succeed and statement `index` fails with
/// `cause`. The run ends with [`ErrorView::Statement`], which carries the
/// version and the text of that statement, and hands out no statement
/// after it. The history table has no new row. A transactional run has
/// abandoned its transaction and changed nothing; a non-transactional run
/// has left the statements before `index` in effect.
pub proof fn lemma_failed_statement_ends_run<H: HistoryTable>(
    history: &H,
    migration: MigrationView,
    mode: ApplyMode,
    now_ms: nat,
    store: Store,
    ticks: Seq<Tick>,
    index: nat,
    cause: Seq<char>,
)
    requires
        store.pending is None,
        index < migration.statements.len(),
        match mode {
            ApplyMode::Transactional => {
                &&& ticks.len() >= index + 3
                &&& all_done(ticks, index + 1)
                &&& ticks[index as int + 1].event == EventView::Failed(cause)
            },
            ApplyMode::NonTransactional => {
                &&& ticks.len() > index
                &&& all_done(ticks, index)
                &&& ticks[index as int].event == EventView::Failed(cause)
            },
        },
    ensures
        run(history, migration, mode, now_ms, store, ticks) == (
            StepView::Done(
                Err(
                    ErrorView::Statement {
                        version: migration.version,
                        statement: migration.statements[index as int],
                        cause,
                    },
                ),
            ),
            match mode {
                ApplyMode::Transactional => store,
                ApplyMode::NonTransactional => Store {
                    schema: store.schema + migration.statements.take(index as int),
                    history: store.history,
                    pending: store.pending,
                },
            },
        ),
{
    let statements = migration.statements;
    let none = Seq::<RecordView>::empty();
    let first = start_spec(history, migration, mode, now_ms);
    match mode {
        ApplyMode::Transactional => {
            lemma_turn(history, migration, first, store, ticks);
            let ticks1 = ticks.skip(1);
            let store1 = store.after(ActionView::Begin, ticks[0].event);
            let started_ms = ticks[0].now_ms;
            lemma_all_done_skip(ticks, index + 1);
            lemma_statements_run(history, migration, mode, started_ms, 0, index, store1, ticks1);
            let ticks2 = ticks1.skip(index as int);
            let store2 = store1.with(true, statements.subrange(0, index as int), none);
            let failing = execute_step(migration, mode, started_ms, index);
            assert(ticks2[0] == ticks[index as int + 1]);
            lemma_turn(history, migration, failing, store2, ticks2);
            let ticks3 = ticks2.skip(1);
            let rolling_back = step_spec(
                history,
                migration,
                failing->run,
                ticks2[0].event,
                ticks2[0].now_ms,
            );
            assert(ticks3[0] == ticks[index as int + 2]);
            lemma_turn(
                history,
                migration,
                rolling_back,
                store2.after(failing->action, ticks2[0].event),
                ticks3,
            );
            lemma_transactional_apply_is_atomic(history, migration, now_ms, store, ticks);
        },
        ApplyMode::NonTransactional => {
            lemma_statements_run(history, migration, mode, now_ms, 0, index, store, ticks);
            let ticks2 = ticks.skip(index as int);
            let store2 = store.with(false, statements.subrange(0, index as int), none);
            let failing = execute_step(migration, mode, now_ms, index);
            assert(ticks2[0] == ticks[index as int]);
            lemma_turn(history, migration, failing, store2, ticks2);
            assert(statements.subrange(0, index as int) =~= statements.take(index as int));
            assert(store2.history =~= store.history);
        },
    }
}

} // verus!
