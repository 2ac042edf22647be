//! The version a database stands at: the greatest version in its history.

use crate::migration::{ExistingMigration, RecordView};
use vstd::prelude::*;

verus! {

/// The versions of the rows of a history, in the order of the rows.
pub open spec fn versions_of(history: Seq<RecordView>) -> Seq<int> {
    Seq::new(history.len(), |i: int| history[i].version)
}

/// Whether `version` occurs in `versions` and none there is greater.
pub open spec fn is_greatest(version: int, versions: Seq<int>) -> bool {
    &&& exists|i: int| 0 <= i < versions.len() && versions[i] == version
    &&& forall|i: int| 0 <= i < versions.len() ==> versions[i] <= version
}

/// The greater of two versions.
pub open spec fn later(a: int, b: int) -> int {
    if a >= b {
        a
    } else {
        b
    }
}

/// The greatest of `versions`, or none where there is no version.
pub open spec fn greatest(versions: Seq<int>) -> Option<int>
    decreases versions.len(),
{
    if versions.len() == 0 {
        None
    } else {
        match greatest(versions.drop_last()) {
            Some(version) => Some(later(version, versions.last())),
            None => Some(versions.last()),
        }
    }
}

/// The version that a history stands at: the greatest version of its rows,
/// or none where it has no row.
pub open spec fn current_version_of(history: Seq<RecordView>) -> Option<int> {
    greatest(versions_of(history))
}

/// Whether version `a` is at most version `b`, where no version is below
/// every version.
pub open spec fn at_most(a: Option<int>, b: Option<int>) -> bool {
    match (a, b) {
        (None, _) => true,
        (Some(_), None) => false,
        (Some(a), Some(b)) => a <= b,
    }
}

/// The later of two versions, where no version is below every version.
pub open spec fn later_of(a: Option<int>, b: Option<int>) -> Option<int> {
    if at_most(a, b) {
        b
    } else {
        a
    }
}

/// Whether `version` is above what a database stands at.
pub open spec fn is_after(version: int, current: Option<int>) -> bool {
    match current {
        Some(current) => version > current,
        None => true,
    }
}

/// The mathematical value of a version that may be absent.
pub open spec fn version_view(version: Option<i64>) -> Option<int> {
    match version {
        Some(version) => Some(version as int),
        None => None,
    }
}

/// `greatest` is none exactly on the empty sequence, and otherwise the one
/// version that occurs and that no other exceeds.
pub proof fn lemma_greatest(versions: Seq<int>)
    ensures
        greatest(versions) is None <==> versions.len() == 0,
        greatest(versions) matches Some(version) ==> is_greatest(version, versions),
    decreases versions.len(),
{
    if versions.len() > 0 {
        let front = versions.drop_last();
        lemma_greatest(front);
        let version = greatest(versions)->0;
        match greatest(front) {
            Some(before) => {
                let i = choose|i: int| 0 <= i < front.len() && front[i] == before;
                assert(versions[i] == before);
                assert(versions[versions.len() - 1] == versions.last());
                assert forall|k: int| 0 <= k < versions.len() implies versions[k] <= version by {
                    if k < front.len() {
                        assert(front[k] == versions[k]);
                    }
                }
            },
            None => {
                assert(versions[versions.len() - 1] == version);
            },
        }
    }
}

/// A version that occurs and that no other exceeds is the greatest.
pub proof fn lemma_greatest_is_unique(versions: Seq<int>, version: int)
    requires
        is_greatest(version, versions),
    ensures
        greatest(versions) == Some(version),
{
    lemma_greatest(versions);
}

/// The greatest version of two sequences put together is the later of
/// their greatest versions.
pub proof fn lemma_greatest_of_concat(a: Seq<int>, b: Seq<int>)
    ensures
        greatest(a + b) == later_of(greatest(a), greatest(b)),
    decreases b.len(),
{
    if b.len() == 0 {
        assert(a + b =~= a);
    } else {
        lemma_greatest_of_concat(a, b.drop_last());
        assert((a + b).drop_last() =~= a + b.drop_last());
        assert((a + b).last() == b.last());
    }
}

/// The version that the database stands at, from the rows of its history
/// table in whatever order they were read: the greatest version among
/// them, or none where the table is empty.
pub fn current_version(history: &Vec<ExistingMigration>) -> (current: Option<i64>)
    ensures
        version_view(current) == current_version_of(history.deep_view()),
        current is None <==> history.len() == 0,
        current matches Some(version) ==> is_greatest(
            version as int,
            versions_of(history.deep_view()),
        ),
{
    let ghost versions = versions_of(history.deep_view());
    let mut current: Option<i64> = None;
    let mut i: usize = 0;
    while i < history.len()
        invariant
            i <= history.len(),
            versions == versions_of(history.deep_view()),
            version_view(current) == greatest(versions.take(i as int)),
        decreases history.len() - i,
    {
        proof {
            assert(versions.take(i + 1).drop_last() =~= versions.take(i as int));
            assert(versions.take(i + 1).last() == history[i as int].version);
        }
        let version = history[i].version;
        current = match current {
            None => Some(version),
            Some(v) => if version > v {
                Some(version)
            } else {
                Some(v)
            },
        };
        i += 1;
    }
    proof {
        assert(versions.take(i as int) =~= versions);
        lemma_greatest(versions);
    }
    current
}

} // verus!
