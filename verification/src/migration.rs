//! The data the engine works on: a declared migration, the record of one
//! that has just been applied, a row read back from the history table and
//! the source text a migration was declared from.

use vstd::prelude::*;

verus! {

/// One versioned, forward-only schema change.
///
/// `statements` are executed one by one in their order; `sql` is the text
/// they were taken from and is what the history table records. `no_tx`
/// marks a migration that must not run inside a transaction block.
#[derive(Debug, PartialEq, Eq)]
pub struct Migration {
    pub version: i64,
    pub description: String,
    pub statements: Vec<String>,
    pub sql: String,
    pub no_tx: bool,
}

/// The mathematical value of a [`Migration`].
pub struct MigrationView {
    pub version: int,
    pub description: Seq<char>,
    pub statements: Seq<Seq<char>>,
    pub sql: Seq<char>,
    pub no_tx: bool,
}

/// The mathematical value of an [`AppliedMigration`] and of an
/// [`ExistingMigration`]: one row of the history table.
pub struct RecordView {
    pub version: int,
    pub description: Seq<char>,
    pub content: Seq<char>,
    pub duration_ms: int,
}

/// The mathematical value of a [`MigrationSource`].
pub struct SourceView {
    pub version: int,
    pub description: Seq<char>,
    pub content: Seq<char>,
}

/// A migration that has finished executing and is about to be recorded.
#[derive(Debug, PartialEq, Eq)]
pub struct AppliedMigration {
    pub version: i64,
    pub description: String,
    pub content: String,
    pub duration_ms: i64,
}

/// A row of the history table: a migration some earlier run has recorded.
#[derive(Debug, PartialEq, Eq)]
pub struct ExistingMigration {
    pub version: i64,
    pub description: String,
    pub content: String,
    pub duration_ms: i64,
}

/// The declared text of a migration, as validation compares it with history.
#[derive(Debug, PartialEq, Eq)]
pub struct MigrationSource {
    pub version: i64,
    pub description: String,
    pub content: String,
}

impl MigrationView {
    /// The record of this migration once it has run for `duration_ms`.
    pub open spec fn applied(self, duration_ms: int) -> RecordView {
        RecordView {
            version: self.version,
            description: self.description,
            content: self.sql,
            duration_ms,
        }
    }

    /// What validation compares with the history table.
    pub open spec fn source(self) -> SourceView {
        SourceView { version: self.version, description: self.description, content: self.sql }
    }
}

impl View for Migration {
    type V = MigrationView;

    open spec fn view(&self) -> MigrationView {
        MigrationView {
            version: self.version as int,
            description: self.description@,
            statements: self.statements.deep_view(),
            sql: self.sql@,
            no_tx: self.no_tx,
        }
    }
}

impl DeepView for Migration {
    type V = MigrationView;

    open spec fn deep_view(&self) -> MigrationView {
        self@
    }
}

impl View for AppliedMigration {
    type V = RecordView;

    open spec fn view(&self) -> RecordView {
        RecordView {
            version: self.version as int,
            description: self.description@,
            content: self.content@,
            duration_ms: self.duration_ms as int,
        }
    }
}

impl DeepView for AppliedMigration {
    type V = RecordView;

    open spec fn deep_view(&self) -> RecordView {
        self@
    }
}

impl View for ExistingMigration {
    type V = RecordView;

    open spec fn view(&self) -> RecordView {
        RecordView {
            version: self.version as int,
            description: self.description@,
            content: self.content@,
            duration_ms: self.duration_ms as int,
        }
    }
}

impl DeepView for ExistingMigration {
    type V = RecordView;

    open spec fn deep_view(&self) -> RecordView {
        self@
    }
}

impl View for MigrationSource {
    type V = SourceView;

    open spec fn view(&self) -> SourceView {
        SourceView {
            version: self.version as int,
            description: self.description@,
            content: self.content@,
        }
    }
}

impl DeepView for MigrationSource {
    type V = SourceView;

    open spec fn deep_view(&self) -> SourceView {
        self@
    }
}

/// A copy of a list of statements.
fn copy_statements(statements: &Vec<String>) -> (copy: Vec<String>)
    ensures
        copy.deep_view() == statements.deep_view(),
{
    let mut copy: Vec<String> = Vec::new();
    let mut i: usize = 0;
    while i < statements.len()
        invariant
            i <= statements.len(),
            copy.len() == i,
            forall|k: int| 0 <= k < i ==> copy[k]@ == statements[k]@,
        decreases statements.len() - i,
    {
        copy.push(statements[i].clone());
        i += 1;
    }
    assert(copy.deep_view() =~= statements.deep_view());
    copy
}

impl Clone for Migration {
    fn clone(&self) -> (copy: Self)
        ensures
            copy@ == self@,
    {
        Migration {
            version: self.version,
            description: self.description.clone(),
            statements: copy_statements(&self.statements),
            sql: self.sql.clone(),
            no_tx: self.no_tx,
        }
    }
}

impl Clone for AppliedMigration {
    fn clone(&self) -> (copy: Self)
        ensures
            copy@ == self@,
    {
        AppliedMigration {
            version: self.version,
            description: self.description.clone(),
            content: self.content.clone(),
            duration_ms: self.duration_ms,
        }
    }
}

impl Clone for ExistingMigration {
    fn clone(&self) -> (copy: Self)
        ensures
            copy@ == self@,
    {
        ExistingMigration {
            version: self.version,
            description: self.description.clone(),
            content: self.content.clone(),
            duration_ms: self.duration_ms,
        }
    }
}

impl Clone for MigrationSource {
    fn clone(&self) -> (copy: Self)
        ensures
            copy@ == self@,
    {
        MigrationSource {
            version: self.version,
            description: self.description.clone(),
            content: self.content.clone(),
        }
    }
}

impl Migration {
    /// The record of this migration after it has run for `duration_ms`
    /// milliseconds: its version and description, and its text verbatim.
    pub fn new_applied(&self, duration_ms: i64) -> (applied: AppliedMigration)
        ensures
            applied@ == self@.applied(duration_ms as int),
    {
        AppliedMigration {
            version: self.version,
            description: self.description.clone(),
            content: self.sql.clone(),
            duration_ms,
        }
    }

    /// The declared text of this migration, for validation against history.
    pub fn source(&self) -> (source: MigrationSource)
        ensures
            source@ == self@.source(),
    {
        MigrationSource {
            version: self.version,
            description: self.description.clone(),
            content: self.sql.clone(),
        }
    }
}

impl AppliedMigration {
    /// The history row that recording this migration adds.
    pub fn into_existing(self) -> (row: ExistingMigration)
        ensures
            row@ == self@,
    {
        ExistingMigration {
            version: self.version,
            description: self.description,
            content: self.content,
            duration_ms: self.duration_ms,
        }
    }
}

} // verus!
