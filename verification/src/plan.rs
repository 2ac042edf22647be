//! Which migrations are still to be applied, and in which order.

use crate::error::{Error, ErrorView};
use crate::migration::{
    ExistingMigration, Migration, MigrationView, RecordView, SourceView,
};
use crate::store::records;
use crate::validate::{consistent, declares_text, holds, holds_beyond};
use crate::version::{
    at_most, current_version, current_version_of, greatest, is_after, later_of, lemma_greatest,
    lemma_greatest_of_concat, version_view, versions_of,
};
use vstd::prelude::*;

verus! {

/// The versions of the declared migrations, in the order of the
/// declarations.
pub open spec fn declared_versions(definitions: Seq<MigrationView>) -> Seq<int> {
    Seq::new(definitions.len(), |i: int| definitions[i].version)
}

/// Whether the version of declaration `i` is declared again further on.
pub open spec fn repeated_at(definitions: Seq<MigrationView>, i: int) -> bool {
    exists|j: int|
        i < j < definitions.len() && (#[trigger] definitions[j]).version == definitions[i].version
}

/// Whether no two declarations share a version.
pub open spec fn distinct_versions(definitions: Seq<MigrationView>) -> bool {
    forall|i: int, j: int|
        0 <= i < j < definitions.len() ==> (#[trigger] definitions[i]).version != (
        #[trigger] definitions[j]).version
}

/// Whether declaration `i` is the first whose version is declared again.
pub open spec fn first_repeated(definitions: Seq<MigrationView>, i: int) -> bool {
    &&& 0 <= i < definitions.len()
    &&& repeated_at(definitions, i)
    &&& forall|k: int| 0 <= k < i ==> !repeated_at(definitions, k)
}

/// Whether the versions of `plan` go strictly up.
pub open spec fn ascending(plan: Seq<MigrationView>) -> bool {
    forall|i: int, j: int|
        0 <= i < j < plan.len() ==> (#[trigger] plan[i]).version < (#[trigger] plan[j]).version
}

/// Whether `plan` is what is left to apply of `definitions` on a database
/// that stands at `current`: the declarations above `current` and no
/// others, in ascending order of their versions.
pub open spec fn is_plan(
    plan: Seq<MigrationView>,
    definitions: Seq<MigrationView>,
    current: Option<int>,
) -> bool {
    &&& ascending(plan)
    &&& forall|migration: MigrationView|
        plan.contains(migration) <==> definitions.contains(migration) && is_after(
            migration.version,
            current,
        )
}

/// Whether `rows` are the records of the migrations of `plan`, one for
/// each and in the same order.
pub open spec fn recorded(plan: Seq<MigrationView>, rows: Seq<RecordView>) -> bool {
    &&& rows.len() == plan.len()
    &&& forall|i: int| 0 <= i < plan.len() ==> records(#[trigger] plan[i], rows[i])
}

/// Two ascending sequences of the same migrations are one sequence.
proof fn lemma_ascending_is_unique(first: Seq<MigrationView>, second: Seq<MigrationView>)
    requires
        ascending(first),
        ascending(second),
        forall|migration: MigrationView| first.contains(migration) <==> second.contains(migration),
    ensures
        first == second,
    decreases first.len(),
{
    if first.len() == 0 {
        if second.len() > 0 {
            assert(second.contains(second[0]));
        }
        assert(first =~= second);
    } else {
        let top = first.last();
        assert(first.contains(top));
        let at = choose|k: int| 0 <= k < second.len() && second[k] == top;
        if at < second.len() - 1 {
            let beyond = second.last();
            assert(second.contains(beyond));
            let k = choose|k: int| 0 <= k < first.len() && first[k] == beyond;
            assert(second[at].version < second[second.len() - 1].version);
            if k < first.len() - 1 {
                assert(first[k].version < first[first.len() - 1].version);
            }
        }
        let first_front = first.drop_last();
        let second_front = second.drop_last();
        assert forall|migration: MigrationView|
            first_front.contains(migration) <==> second_front.contains(migration) by {
            if first_front.contains(migration) {
                let k = choose|k: int| 0 <= k < first_front.len() && first_front[k] == migration;
                assert(first[k] == migration);
                assert(first[k].version < first[first.len() - 1].version);
                assert(first.contains(migration));
                let l = choose|l: int| 0 <= l < second.len() && second[l] == migration;
                assert(second_front[l] == migration);
            }
            if second_front.contains(migration) {
                let l = choose|l: int|
                    0 <= l < second_front.len() && second_front[l] == migration;
                assert(second[l] == migration);
                assert(second[l].version < second[second.len() - 1].version);
                assert(second.contains(migration));
                let k = choose|k: int| 0 <= k < first.len() && first[k] == migration;
                assert(first_front[k] == migration);
            }
        }
        lemma_ascending_is_unique(first_front, second_front);
        assert(first =~= first_front.push(top));
        assert(second =~= second_front.push(top));
    }
}

/// There is one plan at most.
pub proof fn lemma_plan_is_unique(
    first: Seq<MigrationView>,
    second: Seq<MigrationView>,
    definitions: Seq<MigrationView>,
    current: Option<int>,
)
    requires
        is_plan(first, definitions, current),
        is_plan(second, definitions, current),
    ensures
        first == second,
{
    lemma_ascending_is_unique(first, second);
}

/// A declaration that is not above `current` leaves the plan as it is.
proof fn lemma_plan_without(
    plan: Seq<MigrationView>,
    definitions: Seq<MigrationView>,
    i: int,
    current: Option<int>,
)
    requires
        0 <= i < definitions.len(),
        is_plan(plan, definitions.take(i), current),
        !is_after(definitions[i].version, current),
    ensures
        is_plan(plan, definitions.take(i + 1), current),
{
    let before = definitions.take(i);
    let with = definitions.take(i + 1);
    assert forall|migration: MigrationView|
        plan.contains(migration) <==> with.contains(migration) && is_after(
            migration.version,
            current,
        ) by {
        if before.contains(migration) {
            let k = choose|k: int| 0 <= k < before.len() && before[k] == migration;
            assert(with[k] == migration);
        }
        if with.contains(migration) && is_after(migration.version, current) {
            let k = choose|k: int| 0 <= k < with.len() && with[k] == migration;
            assert(before[k] == migration);
        }
    }
}

/// A declaration above `current` takes its place in the plan, between the
/// lower versions and the higher ones.
proof fn lemma_plan_with(
    plan: Seq<MigrationView>,
    definitions: Seq<MigrationView>,
    i: int,
    at: int,
    current: Option<int>,
)
    requires
        0 <= i < definitions.len(),
        distinct_versions(definitions),
        is_plan(plan, definitions.take(i), current),
        is_after(definitions[i].version, current),
        0 <= at <= plan.len(),
        forall|k: int| 0 <= k < at ==> (#[trigger] plan[k]).version < definitions[i].version,
        at < plan.len() ==> plan[at].version >= definitions[i].version,
    ensures
        is_plan(plan.insert(at, definitions[i]), definitions.take(i + 1), current),
{
    let before = definitions.take(i);
    let with = definitions.take(i + 1);
    let added = definitions[i];
    let longer = plan.insert(at, added);
    assert forall|k: int| at <= k < plan.len() implies (#[trigger] plan[k]).version
        > added.version by {
        assert(plan.contains(plan[k]));
        let j = choose|j: int| 0 <= j < before.len() && before[j] == plan[k];
        assert(definitions[j].version != definitions[i].version);
        if k > at {
            assert(plan[at].version < plan[k].version);
        }
    }
    assert forall|a: int, b: int| 0 <= a < b < longer.len() implies (#[trigger] longer[a]).version
        < (#[trigger] longer[b]).version by {
        if a < at && b > at {
            assert(plan[a].version < added.version);
            assert(plan[b - 1].version > added.version);
        } else if a < at && b < at {
            assert(plan[a].version < plan[b].version);
        } else if a > at {
            assert(plan[a - 1].version < plan[b - 1].version);
        }
    }
    assert forall|migration: MigrationView|
        longer.contains(migration) <==> with.contains(migration) && is_after(
            migration.version,
            current,
        ) by {
        if longer.contains(migration) {
            let k = choose|k: int| 0 <= k < longer.len() && longer[k] == migration;
            if k == at {
                assert(with[i] == migration);
            } else {
                let from = if k < at {
                    k
                } else {
                    k - 1
                };
                assert(plan[from] == migration);
                assert(plan.contains(migration));
                let j = choose|j: int| 0 <= j < before.len() && before[j] == migration;
                assert(with[j] == migration);
            }
        }
        if with.contains(migration) && is_after(migration.version, current) {
            let j = choose|j: int| 0 <= j < with.len() && with[j] == migration;
            if j == i {
                assert(longer[at] == migration);
            } else {
                assert(before[j] == migration);
                assert(before.contains(migration));
                let k = choose|k: int| 0 <= k < plan.len() && plan[k] == migration;
                let to = if k < at {
                    k
                } else {
                    k + 1
                };
                assert(longer[to] == migration);
            }
        }
    }
}

/// The first declaration whose version is declared again, if there is one.
fn find_repeated(definitions: &Vec<Migration>) -> (found: Option<usize>)
    ensures
        match found {
            Some(i) => first_repeated(definitions.deep_view(), i as int),
            None => distinct_versions(definitions.deep_view()),
        },
{
    let ghost declared = definitions.deep_view();
    let mut i: usize = 0;
    while i < definitions.len()
        invariant
            i <= definitions.len(),
            declared == definitions.deep_view(),
            forall|k: int| 0 <= k < i ==> !repeated_at(declared, k),
        decreases definitions.len() - i,
    {
        let mut j: usize = i + 1;
        while j < definitions.len()
            invariant
                i < j <= definitions.len(),
                declared == definitions.deep_view(),
                forall|k: int| 0 <= k < i ==> !repeated_at(declared, k),
                forall|k: int|
                    i < k < j ==> (#[trigger] declared[k]).version != declared[i as int].version,
            decreases definitions.len() - j,
        {
            if definitions[j].version == definitions[i].version {
                assert(declared[j as int].version == declared[i as int].version);
                return Some(i);
            }
            j += 1;
        }
        i += 1;
    }
    proof {
        assert forall|a: int, b: int| 0 <= a < b < declared.len() implies (
        #[trigger] declared[a]).version != (#[trigger] declared[b]).version by {
            if declared[a].version == declared[b].version {
                assert(repeated_at(declared, a));
            }
        }
    }
    None
}

/// Whether `version` is above `current`.
fn comes_after(version: i64, current: Option<i64>) -> (after: bool)
    ensures
        after == is_after(version as int, version_view(current)),
{
    match current {
        Some(current) => version > current,
        None => true,
    }
}

/// The migrations that are still to be applied, in the order in which to
/// apply them: those of `definitions` whose version is above the greatest
/// version in `history`, in ascending order of their versions.
///
/// Declarations that share a version are refused, whatever they hold: the
/// error names the first version that is declared twice.
pub fn pending(definitions: &Vec<Migration>, history: &Vec<ExistingMigration>) -> (plan: Result<
    Vec<Migration>,
    Error,
>)
    ensures
        plan is Ok <==> distinct_versions(definitions.deep_view()),
        plan matches Ok(migrations) ==> is_plan(
            migrations.deep_view(),
            definitions.deep_view(),
            current_version_of(history.deep_view()),
        ),
        plan matches Err(error) ==> exists|i: int|
            first_repeated(definitions.deep_view(), i) && error@ == (ErrorView::DuplicateVersion {
                version: (#[trigger] definitions.deep_view()[i]).version,
            }),
{
    let ghost declared = definitions.deep_view();
    match find_repeated(definitions) {
        Some(i) => {
            proof {
                assert(repeated_at(declared, i as int));
                let j = choose|j: int|
                    i < j < declared.len() && (#[trigger] declared[j]).version
                        == declared[i as int].version;
                assert(declared[i as int].version == declared[j].version);
            }
            return Err(Error::DuplicateVersion { version: definitions[i].version });
        },
        None => {},
    }
    let current = current_version(history);
    let ghost standing = current_version_of(history.deep_view());
    let mut plan: Vec<Migration> = Vec::new();
    let mut i: usize = 0;
    proof {
        assert(declared.take(0) =~= Seq::<MigrationView>::empty());
        assert(plan.deep_view() =~= Seq::<MigrationView>::empty());
    }
    while i < definitions.len()
        invariant
            i <= definitions.len(),
            declared == definitions.deep_view(),
            distinct_versions(declared),
            version_view(current) == standing,
            is_plan(plan.deep_view(), declared.take(i as int), standing),
        decreases definitions.len() - i,
    {
        let migration = &definitions[i];
        assert(migration@ == declared[i as int]);
        if comes_after(migration.version, current) {
            let mut at: usize = 0;
            while at < plan.len() && plan[at].version < migration.version
                invariant
                    at <= plan.len(),
                    forall|k: int|
                        0 <= k < at ==> (#[trigger] plan.deep_view()[k]).version
                            < migration.version,
                decreases plan.len() - at,
            {
                at += 1;
            }
            let ghost shorter = plan.deep_view();
            proof {
                lemma_plan_with(shorter, declared, i as int, at as int, standing);
            }
            plan.insert(at, migration.clone());
            assert(plan.deep_view() =~= shorter.insert(at as int, declared[i as int]));
        } else {
            proof {
                lemma_plan_without(plan.deep_view(), declared, i as int, standing);
            }
        }
        i += 1;
    }
    assert(declared.take(i as int) =~= declared);
    Ok(plan)
}

/// After all pending migrations are applied, the database stands at the
/// latest declared version.
///
/// `plan` is what is left to apply of `definitions` on a database with
/// `history`, and `rows` are the records that applying `plan` has added to
/// it. The database then stands at the later of where it stood and the
/// greatest declared version: at the greatest declared version, unless the
/// history already was beyond every declaration.
pub proof fn lemma_apply_all_reaches_latest(
    definitions: Seq<MigrationView>,
    history: Seq<RecordView>,
    plan: Seq<MigrationView>,
    rows: Seq<RecordView>,
)
    requires
        is_plan(plan, definitions, current_version_of(history)),
        recorded(plan, rows),
    ensures
        current_version_of(history + rows) == later_of(
            current_version_of(history),
            greatest(declared_versions(definitions)),
        ),
        at_most(current_version_of(history), greatest(declared_versions(definitions)))
            ==> current_version_of(history + rows) == greatest(declared_versions(definitions)),
{
    let standing = current_version_of(history);
    let declared = declared_versions(definitions);
    let added = versions_of(rows);
    assert(versions_of(history + rows) =~= versions_of(history) + added);
    lemma_greatest_of_concat(versions_of(history), added);
    lemma_greatest(declared);
    lemma_greatest(added);
    lemma_greatest(versions_of(history));
    match greatest(declared) {
        Some(latest) => {
            let j = choose|j: int| 0 <= j < declared.len() && declared[j] == latest;
            if is_after(latest, standing) {
                assert(definitions.contains(definitions[j]));
                assert(plan.contains(definitions[j]));
                let k = choose|k: int| 0 <= k < plan.len() && plan[k] == definitions[j];
                assert(records(plan[k], rows[k]));
                assert(added[k] == latest);
                assert forall|l: int| 0 <= l < added.len() implies added[l] <= latest by {
                    assert(records(plan[l], rows[l]));
                    assert(plan.contains(plan[l]));
                    let d = choose|d: int| 0 <= d < definitions.len() && definitions[d] == plan[l];
                    assert(declared[d] == added[l]);
                }
                assert(greatest(added) == Some(latest));
            } else {
                if plan.len() > 0 {
                    assert(plan.contains(plan[0]));
                    let d = choose|d: int| 0 <= d < definitions.len() && definitions[d] == plan[0];
                    assert(declared[d] <= latest);
                }
                assert(added.len() == 0);
            }
        },
        None => {
            if plan.len() > 0 {
                assert(plan.contains(plan[0]));
            }
            assert(added.len() == 0);
        },
    }
}

/// After all pending migrations are applied, none is pending.
///
/// `plan` is what is left to apply of `definitions` on a database with
/// `history`, and `rows` are the records that applying `plan` has added to
/// it. What is left to apply on the database after that is nothing.
pub proof fn lemma_apply_all_leaves_nothing(
    definitions: Seq<MigrationView>,
    history: Seq<RecordView>,
    plan: Seq<MigrationView>,
    rows: Seq<RecordView>,
    again: Seq<MigrationView>,
)
    requires
        is_plan(plan, definitions, current_version_of(history)),
        recorded(plan, rows),
        is_plan(again, definitions, current_version_of(history + rows)),
    ensures
        again == Seq::<MigrationView>::empty(),
{
    lemma_apply_all_reaches_latest(definitions, history, plan, rows);
    let declared = declared_versions(definitions);
    lemma_greatest(declared);
    lemma_greatest(versions_of(history));
    if again.len() > 0 {
        assert(again.contains(again[0]));
        let d = choose|d: int| 0 <= d < definitions.len() && definitions[d] == again[0];
        assert(declared[d] == again[0].version);
    }
    assert(again =~= Seq::<MigrationView>::empty());
}

/// Applying pending migrations passes over no declared version.
///
/// `plan` is what is left to apply of `definitions` on a database with
/// `history`, and `rows` are the records of its first `count` migrations:
/// the run may have stopped before the end of the plan. A declared
/// `version` that is then missing from the history below a later one was
/// missing below a later one before.
pub proof fn lemma_apply_all_creates_no_gap(
    definitions: Seq<MigrationView>,
    history: Seq<RecordView>,
    plan: Seq<MigrationView>,
    count: int,
    rows: Seq<RecordView>,
    version: int,
)
    requires
        is_plan(plan, definitions, current_version_of(history)),
        0 <= count <= plan.len(),
        recorded(plan.take(count), rows),
        exists|j: int| 0 <= j < definitions.len() && (#[trigger] definitions[j]).version == version,
        !holds(history + rows, version),
        holds_beyond(history + rows, version),
    ensures
        !holds(history, version),
        holds_beyond(history, version),
{
    let after = history + rows;
    let standing = current_version_of(history);
    if holds(history, version) {
        let i = choose|i: int| 0 <= i < history.len() && (#[trigger] history[i]).version == version;
        assert(after[i].version == version);
    }
    let beyond = choose|i: int| 0 <= i < after.len() && (#[trigger] after[i]).version > version;
    if beyond < history.len() {
        assert(history[beyond].version > version);
    } else {
        let j = choose|j: int|
            0 <= j < definitions.len() && (#[trigger] definitions[j]).version == version;
        if is_after(version, standing) {
            let r = beyond - history.len();
            assert(records(plan.take(count)[r], rows[r]));
            assert(definitions.contains(definitions[j]));
            assert(plan.contains(definitions[j]));
            let q = choose|q: int| 0 <= q < plan.len() && plan[q] == definitions[j];
            if q > r {
                assert(plan[r].version < plan[q].version);
            }
            assert(q < r);
            assert(records(plan.take(count)[q], rows[q]));
            assert(after[history.len() + q].version == version);
        } else {
            lemma_greatest(versions_of(history));
            let current = standing->0;
            let at = choose|i: int|
                0 <= i < versions_of(history).len() && versions_of(history)[i] == current;
            assert(history[at].version == current);
        }
    }
}

/// The texts of the declared migrations, as validation takes them.
pub open spec fn sources_of(definitions: Seq<MigrationView>) -> Seq<SourceView> {
    Seq::new(definitions.len(), |i: int| definitions[i].source())
}

/// Applying pending migrations keeps declarations and history in
/// agreement.
///
/// `plan` is what is left to apply of `definitions` on a database with
/// `history`, and `rows` are the records of its first `count` migrations:
/// the run may have stopped before the end of the plan. Where the
/// declarations and the history agreed before, they agree after.
pub proof fn lemma_apply_all_keeps_consistent(
    definitions: Seq<MigrationView>,
    history: Seq<RecordView>,
    plan: Seq<MigrationView>,
    count: int,
    rows: Seq<RecordView>,
)
    requires
        is_plan(plan, definitions, current_version_of(history)),
        0 <= count <= plan.len(),
        recorded(plan.take(count), rows),
        consistent(sources_of(definitions), history),
    ensures
        consistent(sources_of(definitions), history + rows),
{
    let sources = sources_of(definitions);
    let after = history + rows;
    assert forall|i: int| 0 <= i < after.len() implies declares_text(
        sources,
        (#[trigger] after[i]).version,
        after[i].content,
    ) by {
        if i < history.len() {
            assert(declares_text(sources, history[i].version, history[i].content));
        } else {
            let r = i - history.len();
            assert(records(plan.take(count)[r], rows[r]));
            assert(plan.contains(plan[r]));
            let j = choose|j: int| 0 <= j < definitions.len() && definitions[j] == plan[r];
            assert(sources[j].version == after[i].version && sources[j].content
                == after[i].content);
        }
    }
    assert forall|i: int, j: int|
        0 <= i < sources.len() && 0 <= j < after.len() && (#[trigger] sources[i]).version < (
        #[trigger] after[j]).version implies holds(after, sources[i].version) by {
        let version = sources[i].version;
        if !holds(after, version) {
            assert(definitions[i].version == version);
            assert(after[j].version > version);
            lemma_apply_all_creates_no_gap(definitions, history, plan, count, rows, version);
            let beyond = choose|k: int|
                0 <= k < history.len() && (#[trigger] history[k]).version > version;
            assert(sources[i].version < history[beyond].version);
        }
    }
}

} // verus!
