//! Applying a plan: one migration after the other, in the order of the
//! plan, and no further than the first that fails.
//!
//! [`apply_all`] opens such a run and [`Runner::step`] continues it, in the
//! way of [`crate::apply`]. The [`Report`] at its end names the migrations
//! that were applied and recorded, and the failure that stopped the run, if
//! one did.

use crate::apply::{
    apply, start_spec, step_spec, Action, ActionView, ApplyMode, ApplyRun, ApplyRunView, Event,
    EventView, StageView, Step, StepView,
};
use crate::error::{Error, ErrorView};
use crate::history::HistoryTable;
use crate::migration::{
    AppliedMigration, ExistingMigration, Migration, MigrationView, RecordView,
};
use crate::plan::{
    declared_versions, distinct_versions, first_repeated, is_plan,
    lemma_apply_all_leaves_nothing, lemma_apply_all_reaches_latest, pending, recorded,
};
use crate::store::{
    all_done, lemma_start_is_on_course, lemma_turn_stays_on_course, on_course, records, turns,
    Store, Tick,
};
use crate::version::{at_most, current_version_of, greatest, later_of};
use vstd::prelude::*;

verus! {

/// A run through a plan that is under way: one action of the migration at
/// `index` has been handed out and its answer is awaited.
pub struct Runner {
    plan: Vec<Migration>,
    index: usize,
    applied: Vec<AppliedMigration>,
    run: ApplyRun,
}

/// The mathematical value of a [`Runner`]: the plan, the place of the
/// migration that is being applied, the records of those before it, and
/// the run that applies it.
pub struct RunnerView {
    pub plan: Seq<MigrationView>,
    pub index: nat,
    pub applied: Seq<RecordView>,
    pub run: ApplyRunView,
}

impl View for Runner {
    type V = RunnerView;

    closed spec fn view(&self) -> RunnerView {
        RunnerView {
            plan: self.plan.deep_view(),
            index: self.index as nat,
            applied: self.applied.deep_view(),
            run: self.run@,
        }
    }
}

impl Runner {
    #[verifier::type_invariant]
    spec fn within_plan(self) -> bool {
        self.index < self.plan.len()
    }
}

/// How a run through a plan ended.
#[derive(Debug, PartialEq, Eq)]
pub struct Report {
    /// The migrations that were applied and recorded, in their order.
    pub applied: Vec<AppliedMigration>,
    /// What stopped the run before the end of the plan, if anything did.
    pub failure: Option<Error>,
}

/// The mathematical value of a [`Report`].
pub struct ReportView {
    pub applied: Seq<RecordView>,
    pub failure: Option<ErrorView>,
}

impl View for Report {
    type V = ReportView;

    open spec fn view(&self) -> ReportView {
        ReportView {
            applied: self.applied.deep_view(),
            failure: match self.failure {
                Some(error) => Some(error@),
                None => None,
            },
        }
    }
}

/// Where a run through a plan stands after a decision.
pub enum Progress {
    /// The backend is to perform `action` and to hand its outcome to
    /// `runner`.
    Next { runner: Runner, action: Action },
    /// The run is over.
    Done(Report),
}

/// The mathematical value of a [`Progress`].
pub enum ProgressView {
    Next { runner: RunnerView, action: ActionView },
    Done(ReportView),
}

impl View for Progress {
    type V = ProgressView;

    open spec fn view(&self) -> ProgressView {
        match *self {
            Progress::Next { runner, action } => ProgressView::Next {
                runner: runner@,
                action: action@,
            },
            Progress::Done(report) => ProgressView::Done(report@),
        }
    }
}

/// The run opens on the migration at `index`, in the mode it asks for; past
/// the end of the plan there is nothing left to do.
pub open spec fn proceed_spec<H: HistoryTable>(
    history: &H,
    plan: Seq<MigrationView>,
    index: nat,
    applied: Seq<RecordView>,
    now_ms: nat,
) -> ProgressView {
    if index < plan.len() {
        let opened = start_spec(
            history,
            plan[index as int],
            ApplyMode::spec_of(plan[index as int]),
            now_ms,
        );
        ProgressView::Next {
            runner: RunnerView { plan, index, applied, run: opened->run },
            action: opened->action,
        }
    } else {
        ProgressView::Done(ReportView { applied, failure: None })
    }
}

/// The first step of a run through `plan`.
pub open spec fn start_all_spec<H: HistoryTable>(
    history: &H,
    plan: Seq<MigrationView>,
    now_ms: nat,
) -> ProgressView {
    proceed_spec(history, plan, 0, Seq::empty(), now_ms)
}

/// The step that follows when the action that `runner` waits for has ended
/// as `event` says: the migration goes on; or it is done, and the next one
/// opens; or it has failed, and the run is over.
pub open spec fn step_all_spec<H: HistoryTable>(
    history: &H,
    runner: RunnerView,
    event: EventView,
    now_ms: nat,
) -> ProgressView {
    match step_spec(history, runner.plan[runner.index as int], runner.run, event, now_ms) {
        StepView::Next { run, action } => ProgressView::Next {
            runner: RunnerView {
                plan: runner.plan,
                index: runner.index,
                applied: runner.applied,
                run,
            },
            action,
        },
        StepView::Done(Ok(record)) => proceed_spec(
            history,
            runner.plan,
            runner.index + 1,
            runner.applied.push(record),
            now_ms,
        ),
        StepView::Done(Err(error)) => ProgressView::Done(
            ReportView { applied: runner.applied, failure: Some(error) },
        ),
    }
}

fn proceed<H: HistoryTable>(
    history: &H,
    plan: Vec<Migration>,
    index: usize,
    applied: Vec<AppliedMigration>,
    now_ms: u128,
) -> (progress: Progress)
    ensures
        progress@ == proceed_spec(
            history,
            plan.deep_view(),
            index as nat,
            applied.deep_view(),
            now_ms as nat,
        ),
{
    if index < plan.len() {
        let (run, action) = apply(history, &plan[index], now_ms);
        Progress::Next { runner: Runner { plan, index, applied, run }, action }
    } else {
        Progress::Done(Report { applied, failure: None })
    }
}

/// Opens a run that applies the migrations of `plan` one after the other,
/// each in the mode it asks for.
pub fn apply_all<H: HistoryTable>(history: &H, plan: Vec<Migration>, now_ms: u128) -> (progress:
    Progress)
    ensures
        progress@ == start_all_spec(history, plan.deep_view(), now_ms as nat),
{
    let applied: Vec<AppliedMigration> = Vec::new();
    assert(applied.deep_view() =~= Seq::empty());
    proceed(history, plan, 0, applied, now_ms)
}

/// Opens a run that applies what is left to apply of `definitions` on a
/// database whose history table holds `rows`: the declarations above the
/// greatest version of `rows`, in ascending order of their versions.
///
/// Declarations that share a version are refused, as [`pending`] refuses
/// them.
pub fn apply_pending<H: HistoryTable>(
    history: &H,
    definitions: &Vec<Migration>,
    rows: &Vec<ExistingMigration>,
    now_ms: u128,
) -> (opened: Result<Progress, Error>)
    ensures
        opened is Ok <==> distinct_versions(definitions.deep_view()),
        opened matches Ok(progress) ==> exists|plan: Seq<MigrationView>|
            {
                &&& is_plan(
                    plan,
                    definitions.deep_view(),
                    current_version_of(rows.deep_view()),
                )
                &&& progress@ == #[trigger] start_all_spec(history, plan, now_ms as nat)
            },
        opened matches Err(error) ==> exists|i: int|
            first_repeated(definitions.deep_view(), i) && error@ == (ErrorView::DuplicateVersion {
                version: (#[trigger] definitions.deep_view()[i]).version,
            }),
{
    match pending(definitions, rows) {
        Ok(plan) => Ok(apply_all(history, plan, now_ms)),
        Err(error) => Err(error),
    }
}

impl Runner {
    /// Continues the run: the action it had handed out has ended as `event`
    /// says, and the clock shows `now_ms`.
    ///
    /// `history` is the one that the run was opened with.
    pub fn step<H: HistoryTable>(self, history: &H, event: Event, now_ms: u128) -> (progress:
        Progress)
        ensures
            progress@ == step_all_spec(history, self@, event@, now_ms as nat),
    {
        proof {
            use_type_invariant(&self);
        }
        let Runner { plan, index, applied, run } = self;
        let mut applied = applied;
        match run.step(history, &plan[index], event, now_ms) {
            Step::Next { run, action } => Progress::Next {
                runner: Runner { plan, index, applied, run },
                action,
            },
            Step::Done(Ok(record)) => {
                let ghost before = applied.deep_view();
                let ghost added = record@;
                applied.push(record);
                assert(applied.deep_view() =~= before.push(added));
                proceed(history, plan, index + 1, applied, now_ms)
            },
            Step::Done(Err(error)) => Progress::Done(Report { applied, failure: Some(error) }),
        }
    }
}

/// A run through a plan and a store taking turns, until the run is over or
/// no tick is left.
pub open spec fn run_all_from<H: HistoryTable>(
    history: &H,
    progress: ProgressView,
    store: Store,
    ticks: Seq<Tick>,
) -> (ProgressView, Store)
    decreases ticks.len(),
{
    match progress {
        ProgressView::Done(_) => (progress, store),
        ProgressView::Next { runner, action } => if ticks.len() == 0 {
            (progress, store)
        } else {
            run_all_from(
                history,
                step_all_spec(history, runner, ticks[0].event, ticks[0].now_ms),
                store.after(action, ticks[0].event),
                ticks.drop_first(),
            )
        },
    }
}

/// The run through `plan`, opened at `now_ms` on a database that is
/// `store`, and taken as far as `ticks` reach.
pub open spec fn run_all<H: HistoryTable>(
    history: &H,
    plan: Seq<MigrationView>,
    now_ms: nat,
    store: Store,
    ticks: Seq<Tick>,
) -> (ProgressView, Store) {
    run_all_from(history, start_all_spec(history, plan, now_ms), store, ticks)
}

/// The statements of the migrations of `plan`, in the order of the plan.
pub open spec fn all_statements(plan: Seq<MigrationView>) -> Seq<Seq<char>>
    decreases plan.len(),
{
    if plan.len() == 0 {
        Seq::empty()
    } else {
        all_statements(plan.drop_last()) + plan.last().statements
    }
}

/// What a run through `plan` that is over has left behind on a database
/// that was `origin`.
///
/// The migrations of the report are the first of the plan, each applied
/// and recorded; their records are the new rows of the history table, and
/// no transaction is open. Without a failure they are the whole plan. With
/// a failure, it is that of the next migration of the plan: nothing after
/// it has run, and of its own statements the first few are in effect, none
/// where it was applied in a transaction.
pub open spec fn left_behind(
    plan: Seq<MigrationView>,
    origin: Store,
    report: ReportView,
    store: Store,
) -> bool {
    let count = report.applied.len() as int;
    &&& count <= plan.len()
    &&& recorded(plan.take(count), report.applied)
    &&& store.pending is None
    &&& store.history == origin.history + report.applied
    &&& match report.failure {
        None => count == plan.len() && store.schema == origin.schema + all_statements(plan),
        Some(error) => {
            &&& count < plan.len()
            &&& error.version() == Some(plan[count].version)
            &&& exists|done: int|
                {
                    &&& 0 <= done <= plan[count].statements.len()
                    &&& ApplyMode::spec_of(plan[count]) == ApplyMode::Transactional ==> done == 0
                    &&& store.schema == origin.schema + all_statements(plan.take(count))
                        + #[trigger] plan[count].statements.take(done)
                }
        },
    }
}

/// What holds between a run through `plan` and the store at every turn,
/// where `before` is the store as the migration under way found it.
pub open spec fn all_on_course(
    plan: Seq<MigrationView>,
    origin: Store,
    before: Store,
    progress: ProgressView,
    store: Store,
) -> bool {
    match progress {
        ProgressView::Next { runner, action } => {
            &&& runner.plan == plan
            &&& runner.index < plan.len()
            &&& recorded(plan.take(runner.index as int), runner.applied)
            &&& before.pending is None
            &&& before.history == origin.history + runner.applied
            &&& before.schema == origin.schema + all_statements(plan.take(runner.index as int))
            &&& on_course(
                plan[runner.index as int],
                ApplyMode::spec_of(plan[runner.index as int]),
                before,
                StepView::Next { run: runner.run, action },
                store,
            )
        },
        ProgressView::Done(report) => left_behind(plan, origin, report, store),
    }
}

/// The statements of a plan that is one migration longer.
proof fn lemma_all_statements_next(plan: Seq<MigrationView>, index: int)
    requires
        0 <= index < plan.len(),
    ensures
        all_statements(plan.take(index + 1)) == all_statements(plan.take(index))
            + plan[index].statements,
{
    assert(plan.take(index + 1).drop_last() =~= plan.take(index));
    assert(plan.take(index + 1).last() == plan[index]);
}

/// The run is on its course where a migration opens, and has left behind
/// what it should where none is left.
proof fn lemma_proceed_is_on_course<H: HistoryTable>(
    history: &H,
    plan: Seq<MigrationView>,
    origin: Store,
    index: nat,
    applied: Seq<RecordView>,
    now_ms: nat,
    store: Store,
)
    requires
        index <= plan.len(),
        recorded(plan.take(index as int), applied),
        store.pending is None,
        store.history == origin.history + applied,
        store.schema == origin.schema + all_statements(plan.take(index as int)),
    ensures
        all_on_course(
            plan,
            origin,
            store,
            proceed_spec(history, plan, index, applied, now_ms),
            store,
        ),
{
    if index < plan.len() {
        lemma_start_is_on_course(
            history,
            plan[index as int],
            ApplyMode::spec_of(plan[index as int]),
            now_ms,
            store,
        );
    } else {
        assert(plan.take(index as int) =~= plan);
    }
}

/// The store as the migration under way after one more turn finds it: the
/// store after the turn where the turn has completed a migration, the one
/// before where it has not.
pub open spec fn found_after<H: HistoryTable>(
    history: &H,
    before: Store,
    runner: RunnerView,
    action: ActionView,
    store: Store,
    tick: Tick,
) -> Store {
    match step_spec(history, runner.plan[runner.index as int], runner.run, tick.event, tick.now_ms) {
        StepView::Done(Ok(_)) => store.after(action, tick.event),
        _ => before,
    }
}

/// One turn keeps a run through a plan on its course.
proof fn lemma_turn_all<H: HistoryTable>(
    history: &H,
    plan: Seq<MigrationView>,
    origin: Store,
    before: Store,
    progress: ProgressView,
    store: Store,
    tick: Tick,
)
    requires
        all_on_course(plan, origin, before, progress, store),
        progress is Next,
    ensures
        all_on_course(
            plan,
            origin,
            found_after(history, before, progress->runner, progress->action, store, tick),
            step_all_spec(history, progress->runner, tick.event, tick.now_ms),
            store.after(progress->action, tick.event),
        ),
{
    let runner = progress->runner;
    let action = progress->action;
    let index = runner.index as int;
    let migration = plan[index];
    let mode = ApplyMode::spec_of(migration);
    let inner = StepView::Next { run: runner.run, action };
    let next = step_spec(history, migration, runner.run, tick.event, tick.now_ms);
    let after = store.after(action, tick.event);
    lemma_turn_stays_on_course(history, migration, mode, before, inner, store, tick);
    match next {
        StepView::Next { .. } => {},
        StepView::Done(Ok(record)) => {
            let applied = runner.applied.push(record);
            assert(after == before.migrated(migration, record));
            assert(records(migration, record));
            assert(recorded(plan.take(index + 1), applied)) by {
                assert forall|i: int| 0 <= i < index + 1 implies records(
                    #[trigger] plan.take(index + 1)[i],
                    applied[i],
                ) by {
                    if i < index {
                        assert(plan.take(index)[i] == plan[i]);
                        assert(records(plan.take(index)[i], runner.applied[i]));
                    }
                }
            }
            assert(after.history =~= origin.history + applied);
            lemma_all_statements_next(plan, index);
            assert(after.schema =~= origin.schema + all_statements(plan.take(index + 1)));
            lemma_proceed_is_on_course(
                history,
                plan,
                origin,
                (index + 1) as nat,
                applied,
                tick.now_ms,
                after,
            );
        },
        StepView::Done(Err(error)) => {
            let statements = migration.statements;
            match mode {
                ApplyMode::Transactional => {
                    assert(after == before);
                    assert(after.schema =~= origin.schema + all_statements(plan.take(index))
                        + statements.take(0));
                },
                ApplyMode::NonTransactional => {
                    if error is Unrecorded {
                        assert(statements.take(statements.len() as int) =~= statements);
                    } else {
                        let done = choose|done: int|
                            {
                                &&& 0 <= done < statements.len()
                                &&& error->Statement_statement == #[trigger] statements[done]
                                &&& after.schema == before.schema + statements.take(done)
                            };
                        assert(after.schema == origin.schema + all_statements(plan.take(index))
                            + statements.take(done));
                    }
                },
            }
        },
    }
}

/// A run through a plan stays on its course however long it goes on.
proof fn lemma_all_course<H: HistoryTable>(
    history: &H,
    plan: Seq<MigrationView>,
    origin: Store,
    before: Store,
    progress: ProgressView,
    store: Store,
    ticks: Seq<Tick>,
)
    requires
        all_on_course(plan, origin, before, progress, store),
    ensures
        ({
            let (last, after) = run_all_from(history, progress, store, ticks);
            match last {
                ProgressView::Next { runner, .. } => {
                    &&& runner.index < plan.len()
                    &&& recorded(plan.take(runner.index as int), runner.applied)
                    &&& after.history == origin.history + runner.applied
                },
                ProgressView::Done(report) => left_behind(plan, origin, report, after),
            }
        }),
    decreases ticks.len(),
{
    match progress {
        ProgressView::Next { runner, action } => {
            let mode = ApplyMode::spec_of(plan[runner.index as int]);
            if ticks.len() > 0 {
                lemma_turn_all(history, plan, origin, before, progress, store, ticks[0]);
                lemma_all_course(
                    history,
                    plan,
                    origin,
                    found_after(history, before, runner, action, store, ticks[0]),
                    step_all_spec(history, runner, ticks[0].event, ticks[0].now_ms),
                    store.after(action, ticks[0].event),
                    ticks.drop_first(),
                );
            }
        },
        ProgressView::Done(_) => {},
    }
}

/// A run through a plan stops at the first failure and leaves what came
/// before it in place.
///
/// Whatever the outcomes of its actions are, and however far the run has
/// come: the history table holds its rows of before and, after them, the
/// records of the migrations applied so far, which are the first of the
/// plan in their order. Once the run is over, it has left behind what
/// [`left_behind`] says.
pub proof fn lemma_apply_all_stops_at_first_failure<H: HistoryTable>(
    history: &H,
    plan: Seq<MigrationView>,
    now_ms: nat,
    store: Store,
    ticks: Seq<Tick>,
)
    requires
        store.pending is None,
    ensures
        ({
            let (last, after) = run_all(history, plan, now_ms, store, ticks);
            match last {
                ProgressView::Next { runner, .. } => {
                    &&& runner.index < plan.len()
                    &&& recorded(plan.take(runner.index as int), runner.applied)
                    &&& after.history == store.history + runner.applied
                },
                ProgressView::Done(report) => left_behind(plan, store, report, after),
            }
        }),
{
    assert(plan.take(0) =~= Seq::<MigrationView>::empty());
    assert(store.history + Seq::<RecordView>::empty() =~= store.history);
    assert(store.schema + all_statements(plan.take(0)) =~= store.schema);
    lemma_proceed_is_on_course(history, plan, store, 0, Seq::empty(), now_ms, store);
    lemma_all_course(
        history,
        plan,
        store,
        store,
        start_all_spec(history, plan, now_ms),
        store,
        ticks,
    );
}

/// The number of actions that a run has yet to hand out and see succeed
/// before its migration is applied and recorded, the one it waits for
/// included.
pub open spec fn turns_left(migration: MigrationView, run: ApplyRunView) -> nat {
    let count = migration.statements.len();
    let closing: nat = match run.mode {
        ApplyMode::Transactional => 2,
        ApplyMode::NonTransactional => 1,
    };
    match run.stage {
        StageView::Beginning => count + 3,
        StageView::Executing { index, .. } => (count - index) as nat + closing,
        StageView::Recording { .. } => closing,
        StageView::Committing { .. } => 1,
        StageView::RollingBack { .. } => 1,
    }
}

/// The number of actions of a run through `plan` in which nothing fails.
pub open spec fn turns_of(plan: Seq<MigrationView>) -> nat
    decreases plan.len(),
{
    if plan.len() == 0 {
        0
    } else {
        turns(plan[0], ApplyMode::spec_of(plan[0])) + turns_of(plan.drop_first())
    }
}

/// The number of actions that a run through a plan has yet to see succeed.
pub open spec fn all_turns_left(progress: ProgressView) -> nat {
    match progress {
        ProgressView::Next { runner, .. } => turns_left(
            runner.plan[runner.index as int],
            runner.run,
        ) + turns_of(runner.plan.skip(runner.index as int + 1)),
        ProgressView::Done(_) => 0,
    }
}

/// Whether nothing has failed so far.
pub open spec fn untroubled(progress: ProgressView) -> bool {
    match progress {
        ProgressView::Next { runner, .. } => !(runner.run.stage is RollingBack),
        ProgressView::Done(report) => report.failure is None,
    }
}

/// Where a migration opens, the turns left are those of the rest of the
/// plan.
proof fn lemma_turns_left_at_start<H: HistoryTable>(
    history: &H,
    plan: Seq<MigrationView>,
    index: nat,
    applied: Seq<RecordView>,
    now_ms: nat,
)
    requires
        index <= plan.len(),
    ensures
        all_turns_left(proceed_spec(history, plan, index, applied, now_ms)) == turns_of(
            plan.skip(index as int),
        ),
        untroubled(proceed_spec(history, plan, index, applied, now_ms)),
{
    let rest = plan.skip(index as int);
    if index < plan.len() {
        assert(rest[0] == plan[index as int]);
        assert(rest.drop_first() =~= plan.skip(index as int + 1));
    } else {
        assert(rest.len() == 0);
    }
}

/// A turn that succeeds leaves one turn less, and nothing has failed.
proof fn lemma_turn_done<H: HistoryTable>(
    history: &H,
    plan: Seq<MigrationView>,
    origin: Store,
    before: Store,
    progress: ProgressView,
    store: Store,
    tick: Tick,
)
    requires
        all_on_course(plan, origin, before, progress, store),
        progress is Next,
        untroubled(progress),
        tick.event is Done,
    ensures
        untroubled(step_all_spec(history, progress->runner, tick.event, tick.now_ms)),
        all_turns_left(step_all_spec(history, progress->runner, tick.event, tick.now_ms)) + 1
            == all_turns_left(progress),
{
    let runner = progress->runner;
    let index = runner.index;
    let migration = plan[index as int];
    match step_spec(history, migration, runner.run, tick.event, tick.now_ms) {
        StepView::Done(Ok(record)) => {
            lemma_turns_left_at_start(
                history,
                plan,
                index + 1,
                runner.applied.push(record),
                tick.now_ms,
            );
        },
        _ => {},
    }
}

/// Where every action succeeds, the run gets through the plan.
proof fn lemma_all_done<H: HistoryTable>(
    history: &H,
    plan: Seq<MigrationView>,
    origin: Store,
    before: Store,
    progress: ProgressView,
    store: Store,
    ticks: Seq<Tick>,
)
    requires
        all_on_course(plan, origin, before, progress, store),
        untroubled(progress),
        all_done(ticks, all_turns_left(progress)),
    ensures
        run_all_from(history, progress, store, ticks).0 matches ProgressView::Done(report)
            && report.failure is None,
    decreases ticks.len(),
{
    match progress {
        ProgressView::Next { runner, action } => {
            assert(ticks[0].event is Done);
            lemma_turn_all(history, plan, origin, before, progress, store, ticks[0]);
            lemma_turn_done(history, plan, origin, before, progress, store, ticks[0]);
            let next = step_all_spec(history, runner, ticks[0].event, ticks[0].now_ms);
            let rest = ticks.drop_first();
            assert(all_done(rest, all_turns_left(next))) by {
                assert forall|i: int| 0 <= i < all_turns_left(next) implies (#[trigger] rest[i]).event
                    is Done by {
                    assert(rest[i] == ticks[i + 1]);
                }
            }
            lemma_all_done(
                history,
                plan,
                origin,
                found_after(history, before, runner, action, store, ticks[0]),
                next,
                store.after(action, ticks[0].event),
                rest,
            );
        },
        ProgressView::Done(_) => {},
    }
}

/// Where every action succeeds, the whole plan is applied and recorded.
///
/// The run ends after [`turns_of`] actions without a failure. All
/// statements of all migrations of the plan have taken effect, in the order
/// of the plan, and the records of the migrations are the new rows of the
/// history table, in the same order.
pub proof fn lemma_apply_all_succeeds<H: HistoryTable>(
    history: &H,
    plan: Seq<MigrationView>,
    now_ms: nat,
    store: Store,
    ticks: Seq<Tick>,
)
    requires
        store.pending is None,
        all_done(ticks, turns_of(plan)),
    ensures
        ({
            let (last, after) = run_all(history, plan, now_ms, store, ticks);
            &&& last matches ProgressView::Done(report)
            &&& report.failure is None
            &&& recorded(plan, report.applied)
            &&& after == Store {
                schema: store.schema + all_statements(plan),
                history: store.history + report.applied,
                pending: None,
            }
        }),
{
    assert(plan.take(0) =~= Seq::<MigrationView>::empty());
    assert(plan.skip(0) =~= plan);
    assert(store.history + Seq::<RecordView>::empty() =~= store.history);
    assert(store.schema + all_statements(plan.take(0)) =~= store.schema);
    lemma_proceed_is_on_course(history, plan, store, 0, Seq::empty(), now_ms, store);
    lemma_turns_left_at_start(history, plan, 0, Seq::empty(), now_ms);
    lemma_all_done(
        history,
        plan,
        store,
        store,
        start_all_spec(history, plan, now_ms),
        store,
        ticks,
    );
    lemma_apply_all_stops_at_first_failure(history, plan, now_ms, store, ticks);
    assert(plan.take(plan.len() as int) =~= plan);
}

/// After all pending migrations are applied, the database stands at the
/// latest declared version.
///
/// `plan` is what is left to apply of `definitions` on the database, and
/// every action of the run through it succeeds. The database then stands at
/// the later of where it stood and the greatest declared version: at the
/// greatest declared version, unless its history already was beyond every
/// declaration.
pub proof fn lemma_migrate_reaches_latest<H: HistoryTable>(
    history: &H,
    definitions: Seq<MigrationView>,
    plan: Seq<MigrationView>,
    now_ms: nat,
    store: Store,
    ticks: Seq<Tick>,
)
    requires
        store.pending is None,
        is_plan(plan, definitions, current_version_of(store.history)),
        all_done(ticks, turns_of(plan)),
    ensures
        current_version_of(run_all(history, plan, now_ms, store, ticks).1.history) == later_of(
            current_version_of(store.history),
            greatest(declared_versions(definitions)),
        ),
        at_most(current_version_of(store.history), greatest(declared_versions(definitions)))
            ==> current_version_of(run_all(history, plan, now_ms, store, ticks).1.history)
            == greatest(declared_versions(definitions)),
{
    lemma_apply_all_succeeds(history, plan, now_ms, store, ticks);
    let (last, after) = run_all(history, plan, now_ms, store, ticks);
    lemma_apply_all_reaches_latest(definitions, store.history, plan, last->Done_0.applied);
}

/// Applying all pending migrations twice applies none the second time.
///
/// `plan` is what is left to apply of `definitions` on the database, and
/// every action of the run through it succeeds. What is left to apply of
/// `definitions` after that is nothing, and the run through nothing is over
/// before it hands out an action: it reports no migration and no failure.
pub proof fn lemma_migrate_twice_applies_nothing<H: HistoryTable>(
    history: &H,
    definitions: Seq<MigrationView>,
    plan: Seq<MigrationView>,
    now_ms: nat,
    store: Store,
    ticks: Seq<Tick>,
    again: Seq<MigrationView>,
    later_ms: nat,
)
    requires
        store.pending is None,
        is_plan(plan, definitions, current_version_of(store.history)),
        all_done(ticks, turns_of(plan)),
        is_plan(
            again,
            definitions,
            current_version_of(run_all(history, plan, now_ms, store, ticks).1.history),
        ),
    ensures
        again == Seq::<MigrationView>::empty(),
        start_all_spec(history, again, later_ms) == ProgressView::Done(
            ReportView { applied: Seq::empty(), failure: None },
        ),
{
    lemma_apply_all_succeeds(history, plan, now_ms, store, ticks);
    let (last, after) = run_all(history, plan, now_ms, store, ticks);
    lemma_apply_all_leaves_nothing(
        definitions,
        store.history,
        plan,
        last->Done_0.applied,
        again,
    );
}

} // verus!
