//! Comparing the declared migrations with the history table, before
//! anything is applied.

use crate::error::{Conflict, ConflictView, Error, ErrorView};
use crate::migration::{ExistingMigration, MigrationSource, RecordView, SourceView};
use vstd::prelude::*;

verus! {

/// The permissive validator: it performs no checks.
#[derive(Debug, Clone, Copy, PartialEq, Eq)]
pub struct NoValidation;

/// The strict validator: every row of the history must have its
/// declaration, with the text that was recorded, and no declaration below
/// an applied version may be missing from the history.
#[derive(Debug, Clone, Copy, PartialEq, Eq)]
pub struct Validate;

/// Whether a migration of this version is declared.
pub open spec fn declares(sources: Seq<SourceView>, version: int) -> bool {
    exists|i: int| 0 <= i < sources.len() && (#[trigger] sources[i]).version == version
}

/// Whether a migration of this version is declared with this text.
pub open spec fn declares_text(sources: Seq<SourceView>, version: int, content: Seq<char>) -> bool {
    exists|i: int|
        0 <= i < sources.len() && (#[trigger] sources[i]).version == version && sources[i].content
            == content
}

/// Whether the history holds this version.
pub open spec fn holds(history: Seq<RecordView>, version: int) -> bool {
    exists|i: int| 0 <= i < history.len() && (#[trigger] history[i]).version == version
}

/// Whether the history holds a version above this one.
pub open spec fn holds_beyond(history: Seq<RecordView>, version: int) -> bool {
    exists|i: int| 0 <= i < history.len() && (#[trigger] history[i]).version > version
}

/// What is wrong with a row of the history, if anything: it has no
/// declaration, or none with its text.
pub open spec fn row_conflict(sources: Seq<SourceView>, row: RecordView) -> Option<ConflictView> {
    if !declares(sources, row.version) {
        Some(ConflictView::Orphan { version: row.version })
    } else if !declares_text(sources, row.version, row.content) {
        Some(ConflictView::Drift { version: row.version })
    } else {
        None
    }
}

/// What is wrong with a declaration, if anything: it has been passed over.
pub open spec fn source_conflict(history: Seq<RecordView>, source: SourceView) -> Option<
    ConflictView,
> {
    if !holds(history, source.version) && holds_beyond(history, source.version) {
        Some(ConflictView::Gap { version: source.version })
    } else {
        None
    }
}

/// The conflicts among `found`, in their order.
pub open spec fn collected(found: Seq<Option<ConflictView>>) -> Seq<ConflictView>
    decreases found.len(),
{
    if found.len() == 0 {
        Seq::empty()
    } else {
        match found.last() {
            Some(conflict) => collected(found.drop_last()).push(conflict),
            None => collected(found.drop_last()),
        }
    }
}

/// What is wrong with each row of the history, row by row.
pub open spec fn row_findings(sources: Seq<SourceView>, history: Seq<RecordView>) -> Seq<
    Option<ConflictView>,
> {
    Seq::new(history.len(), |i: int| row_conflict(sources, history[i]))
}

/// What is wrong with each declaration, declaration by declaration.
pub open spec fn source_findings(sources: Seq<SourceView>, history: Seq<RecordView>) -> Seq<
    Option<ConflictView>,
> {
    Seq::new(sources.len(), |i: int| source_conflict(history, sources[i]))
}

/// All conflicts between the declarations and the history: those of the
/// rows in the order of the rows, then those of the declarations in the
/// order of the declarations.
pub open spec fn conflicts_of(sources: Seq<SourceView>, history: Seq<RecordView>) -> Seq<
    ConflictView,
> {
    collected(row_findings(sources, history)) + collected(source_findings(sources, history))
}

/// Whether the declarations and the history agree: each row has a
/// declaration of its version with its text, and every declared version
/// below a row's version is in the history too.
pub open spec fn consistent(sources: Seq<SourceView>, history: Seq<RecordView>) -> bool {
    &&& forall|i: int|
        0 <= i < history.len() ==> declares_text(
            sources,
            (#[trigger] history[i]).version,
            history[i].content,
        )
    &&& forall|i: int, j: int|
        0 <= i < sources.len() && 0 <= j < history.len() && (#[trigger] sources[i]).version < (
        #[trigger] history[j]).version ==> holds(history, sources[i].version)
}

/// Nothing is collected exactly where nothing was found.
proof fn lemma_collected_nothing(found: Seq<Option<ConflictView>>)
    ensures
        collected(found).len() == 0 <==> forall|i: int|
            0 <= i < found.len() ==> found[i] is None,
    decreases found.len(),
{
    if found.len() > 0 {
        lemma_collected_nothing(found.drop_last());
        let front = found.drop_last();
        if collected(found).len() == 0 {
            assert forall|i: int| 0 <= i < found.len() implies found[i] is None by {
                if i < front.len() {
                    assert(front[i] == found[i]);
                }
            }
        }
        if forall|i: int| 0 <= i < found.len() ==> found[i] is None {
            assert forall|i: int| 0 <= i < front.len() implies front[i] is None by {
                assert(front[i] == found[i]);
            }
        }
    }
}

/// There is no conflict exactly where the declarations and the history
/// agree.
pub proof fn lemma_no_conflict_means_consistent(
    sources: Seq<SourceView>,
    history: Seq<RecordView>,
)
    ensures
        conflicts_of(sources, history).len() == 0 <==> consistent(sources, history),
{
    let rows = row_findings(sources, history);
    let declarations = source_findings(sources, history);
    lemma_collected_nothing(rows);
    lemma_collected_nothing(declarations);
    if conflicts_of(sources, history).len() == 0 {
        assert forall|i: int| 0 <= i < history.len() implies declares_text(
            sources,
            (#[trigger] history[i]).version,
            history[i].content,
        ) by {
            assert(rows[i] is None);
        }
        assert forall|i: int, j: int|
            0 <= i < sources.len() && 0 <= j < history.len() && (#[trigger] sources[i]).version < (
            #[trigger] history[j]).version implies holds(history, sources[i].version) by {
            assert(declarations[i] is None);
        }
    }
    if consistent(sources, history) {
        assert forall|i: int| 0 <= i < rows.len() implies rows[i] is None by {
            assert(declares_text(sources, history[i].version, history[i].content));
            let k = choose|k: int|
                0 <= k < sources.len() && (#[trigger] sources[k]).version == history[i].version
                    && sources[k].content == history[i].content;
            assert(sources[k].version == history[i].version);
        }
        assert forall|i: int| 0 <= i < declarations.len() implies declarations[i] is None by {
            if holds_beyond(history, sources[i].version) {
                let j = choose|j: int|
                    0 <= j < history.len() && (#[trigger] history[j]).version > sources[i].version;
                assert(sources[i].version < history[j].version);
            }
        }
    }
}

impl NoValidation {
    /// Accepts whatever is declared and whatever the history holds.
    pub fn validate(_source: Vec<MigrationSource>, _applied: Vec<ExistingMigration>) -> (result:
        Result<(), Error>)
        ensures
            result is Ok,
    {
        Ok(())
    }
}

/// What is wrong with `row`, if anything.
fn check_row(source: &Vec<MigrationSource>, row: &ExistingMigration) -> (found: Option<Conflict>)
    ensures
        found.deep_view() == row_conflict(source.deep_view(), row@),
{
    let ghost sources = source.deep_view();
    let mut declared = false;
    let mut same_text = false;
    let mut i: usize = 0;
    while i < source.len()
        invariant
            i <= source.len(),
            sources == source.deep_view(),
            declared <==> declares(sources.take(i as int), row@.version),
            same_text <==> declares_text(sources.take(i as int), row@.version, row@.content),
        decreases source.len() - i,
    {
        let ghost before = sources.take(i as int);
        let ghost with = sources.take(i + 1);
        proof {
            assert(with[i as int] == sources[i as int]);
            assert(source[i as int]@ == sources[i as int]);
            if declares(before, row@.version) {
                let k = choose|k: int|
                    0 <= k < before.len() && (#[trigger] before[k]).version == row@.version;
                assert(with[k].version == row@.version);
            }
            if declares_text(before, row@.version, row@.content) {
                let k = choose|k: int|
                    0 <= k < before.len() && (#[trigger] before[k]).version == row@.version
                        && before[k].content == row@.content;
                assert(with[k].version == row@.version && with[k].content == row@.content);
            }
            if declares(with, row@.version) {
                let k = choose|k: int|
                    0 <= k < with.len() && (#[trigger] with[k]).version == row@.version;
                if k < i {
                    assert(before[k].version == row@.version);
                }
            }
            if declares_text(with, row@.version, row@.content) {
                let k = choose|k: int|
                    0 <= k < with.len() && (#[trigger] with[k]).version == row@.version
                        && with[k].content == row@.content;
                if k < i {
                    assert(before[k].version == row@.version && before[k].content
                        == row@.content);
                }
            }
        }
        if source[i].version == row.version {
            declared = true;
            if source[i].content == row.content {
                same_text = true;
            }
        }
        i += 1;
    }
    assert(sources.take(i as int) =~= sources);
    if !declared {
        Some(Conflict::Orphan { version: row.version })
    } else if !same_text {
        Some(Conflict::Drift { version: row.version })
    } else {
        None
    }
}

/// What is wrong with `declaration`, if anything.
fn check_source(history: &Vec<ExistingMigration>, declaration: &MigrationSource) -> (found:
    Option<Conflict>)
    ensures
        found.deep_view() == source_conflict(history.deep_view(), declaration@),
{
    let ghost rows = history.deep_view();
    let ghost version = declaration@.version;
    let mut applied = false;
    let mut beyond = false;
    let mut i: usize = 0;
    while i < history.len()
        invariant
            i <= history.len(),
            rows == history.deep_view(),
            version == declaration@.version,
            applied <==> holds(rows.take(i as int), version),
            beyond <==> holds_beyond(rows.take(i as int), version),
        decreases history.len() - i,
    {
        let ghost before = rows.take(i as int);
        let ghost with = rows.take(i + 1);
        proof {
            assert(with[i as int] == rows[i as int]);
            assert(history[i as int]@ == rows[i as int]);
            if holds(before, version) {
                let k = choose|k: int|
                    0 <= k < before.len() && (#[trigger] before[k]).version == version;
                assert(with[k].version == version);
            }
            if holds_beyond(before, version) {
                let k = choose|k: int|
                    0 <= k < before.len() && (#[trigger] before[k]).version > version;
                assert(with[k].version > version);
            }
            if holds(with, version) {
                let k = choose|k: int| 0 <= k < with.len() && (#[trigger] with[k]).version == version;
                if k < i {
                    assert(before[k].version == version);
                }
            }
            if holds_beyond(with, version) {
                let k = choose|k: int| 0 <= k < with.len() && (#[trigger] with[k]).version > version;
                if k < i {
                    assert(before[k].version > version);
                }
            }
        }
        if history[i].version == declaration.version {
            applied = true;
        }
        if history[i].version > declaration.version {
            beyond = true;
        }
        i += 1;
    }
    assert(rows.take(i as int) =~= rows);
    if !applied && beyond {
        Some(Conflict::Gap { version: declaration.version })
    } else {
        None
    }
}

/// One more finding, collected.
proof fn lemma_collected_next(found: Seq<Option<ConflictView>>, i: int)
    requires
        0 <= i < found.len(),
    ensures
        collected(found.take(i + 1)) == match found[i] {
            Some(conflict) => collected(found.take(i)).push(conflict),
            None => collected(found.take(i)),
        },
{
    assert(found.take(i + 1).drop_last() =~= found.take(i));
    assert(found.take(i + 1).last() == found[i]);
}

impl Validate {
    /// Compares the declared migrations with the history and reports every
    /// conflict between them, not the first alone.
    ///
    /// For each row of the history, in the order of the rows: an
    /// [`Conflict::Orphan`] where no migration of its version is declared,
    /// else a [`Conflict::Drift`] where none of that version is declared
    /// with the recorded text. Then, for each declaration in the order of
    /// the declarations: a [`Conflict::Gap`] where its version is missing
    /// from the history and the history holds a later one.
    pub fn run_validation(source: Vec<MigrationSource>, history: Vec<ExistingMigration>) -> (result:
        Result<(), Error>)
        ensures
            result is Ok <==> conflicts_of(source.deep_view(), history.deep_view()).len() == 0,
            result is Ok <==> consistent(source.deep_view(), history.deep_view()),
            result matches Err(error) ==> error@ == (ErrorView::Validation {
                conflicts: conflicts_of(source.deep_view(), history.deep_view()),
            }),
    {
        let ghost sources = source.deep_view();
        let ghost rows = history.deep_view();
        let ghost of_rows = row_findings(sources, rows);
        let ghost of_sources = source_findings(sources, rows);
        let mut conflicts: Vec<Conflict> = Vec::new();
        let mut i: usize = 0;
        assert(conflicts.deep_view() =~= collected(of_rows.take(0)));
        while i < history.len()
            invariant
                i <= history.len(),
                sources == source.deep_view(),
                rows == history.deep_view(),
                of_rows == row_findings(sources, rows),
                conflicts.deep_view() == collected(of_rows.take(i as int)),
            decreases history.len() - i,
        {
            let ghost before = conflicts.deep_view();
            proof {
                lemma_collected_next(of_rows, i as int);
            }
            match check_row(&source, &history[i]) {
                Some(conflict) => {
                    conflicts.push(conflict);
                    assert(conflicts.deep_view() =~= before.push(conflict@));
                },
                None => {},
            }
            i += 1;
        }
        assert(of_rows.take(i as int) =~= of_rows);
        let ghost from_rows = conflicts.deep_view();
        let mut j: usize = 0;
        assert(conflicts.deep_view() =~= from_rows + collected(of_sources.take(0)));
        while j < source.len()
            invariant
                j <= source.len(),
                sources == source.deep_view(),
                rows == history.deep_view(),
                of_sources == source_findings(sources, rows),
                conflicts.deep_view() == from_rows + collected(of_sources.take(j as int)),
            decreases source.len() - j,
        {
            let ghost before = conflicts.deep_view();
            proof {
                lemma_collected_next(of_sources, j as int);
            }
            match check_source(&history, &source[j]) {
                Some(conflict) => {
                    conflicts.push(conflict);
                    assert(conflicts.deep_view() =~= before.push(conflict@));
                    assert(before.push(conflict@) =~= from_rows + collected(
                        of_sources.take(j as int),
                    ).push(conflict@));
                },
                None => {},
            }
            j += 1;
        }
        assert(of_sources.take(j as int) =~= of_sources);
        proof {
            lemma_no_conflict_means_consistent(sources, rows);
        }
        if conflicts.len() == 0 {
            Ok(())
        } else {
            Err(Error::Validation { conflicts })
        }
    }
}

} // verus!
