//! What can go wrong, and in which phase of which migration.

use vstd::prelude::*;

verus! {

/// One disagreement between the declared migrations and the history table.
#[derive(Debug, Clone, Copy, PartialEq, Eq, Structural)]
pub enum Conflict {
    /// The history holds this version, and no declared migration has it.
    Orphan { version: i64 },
    /// The history holds this version with a text that no declared migration
    /// of that version has.
    Drift { version: i64 },
    /// This declared version is missing from the history, although a later
    /// version has been applied.
    Gap { version: i64 },
}

/// The mathematical value of a [`Conflict`].
pub enum ConflictView {
    Orphan { version: int },
    Drift { version: int },
    Gap { version: int },
}

impl View for Conflict {
    type V = ConflictView;

    open spec fn view(&self) -> ConflictView {
        match *self {
            Conflict::Orphan { version } => ConflictView::Orphan { version: version as int },
            Conflict::Drift { version } => ConflictView::Drift { version: version as int },
            Conflict::Gap { version } => ConflictView::Gap { version: version as int },
        }
    }
}

impl DeepView for Conflict {
    type V = ConflictView;

    open spec fn deep_view(&self) -> ConflictView {
        self@
    }
}

/// The failures of the engine.
///
/// The variants that carry a `version` name the migration that was being
/// applied; `cause` is the text of the driver's own error.
#[derive(Debug, PartialEq, Eq)]
pub enum Error {
    /// The database could not be reached or refused the credentials.
    Connection { cause: String },
    /// The history table could not be created.
    HistoryTable { cause: String },
    /// The history table could not be read, or a row could not be inserted
    /// into it outside of an apply.
    Query { cause: String },
    /// Two declared migrations share this version.
    DuplicateVersion { version: i64 },
    /// The declared migrations and the history table disagree.
    Validation { conflicts: Vec<Conflict> },
    /// The transaction for this migration could not be opened.
    Begin { version: i64, cause: String },
    /// This statement of the migration failed.
    Statement { version: i64, statement: String, cause: String },
    /// The statements ran inside a transaction, the history row could not be
    /// inserted, and the transaction was abandoned: nothing has changed.
    Record { version: i64, cause: String },
    /// The statements ran outside of a transaction and took effect, and the
    /// history row could not be inserted: the schema has changed and the
    /// history table does not show it.
    Unrecorded { version: i64, cause: String },
    /// The transaction could not be committed.
    Commit { version: i64, cause: String },
}

/// The mathematical value of an [`Error`].
pub enum ErrorView {
    Connection { cause: Seq<char> },
    HistoryTable { cause: Seq<char> },
    Query { cause: Seq<char> },
    DuplicateVersion { version: int },
    Validation { conflicts: Seq<ConflictView> },
    Begin { version: int, cause: Seq<char> },
    Statement { version: int, statement: Seq<char>, cause: Seq<char> },
    Record { version: int, cause: Seq<char> },
    Unrecorded { version: int, cause: Seq<char> },
    Commit { version: int, cause: Seq<char> },
}

impl View for Error {
    type V = ErrorView;

    open spec fn view(&self) -> ErrorView {
        match *self {
            Error::Connection { cause } => ErrorView::Connection { cause: cause@ },
            Error::HistoryTable { cause } => ErrorView::HistoryTable { cause: cause@ },
            Error::Query { cause } => ErrorView::Query { cause: cause@ },
            Error::DuplicateVersion { version } => ErrorView::DuplicateVersion {
                version: version as int,
            },
            Error::Validation { conflicts } => ErrorView::Validation {
                conflicts: conflicts.deep_view(),
            },
            Error::Begin { version, cause } => ErrorView::Begin {
                version: version as int,
                cause: cause@,
            },
            Error::Statement { version, statement, cause } => ErrorView::Statement {
                version: version as int,
                statement: statement@,
                cause: cause@,
            },
            Error::Record { version, cause } => ErrorView::Record {
                version: version as int,
                cause: cause@,
            },
            Error::Unrecorded { version, cause } => ErrorView::Unrecorded {
                version: version as int,
                cause: cause@,
            },
            Error::Commit { version, cause } => ErrorView::Commit {
                version: version as int,
                cause: cause@,
            },
        }
    }
}

impl ErrorView {
    /// Whether the error tells of a schema change that the history table
    /// does not show.
    pub open spec fn leaves_schema_changed(self) -> bool {
        self is Unrecorded
    }

    /// The version of the migration that failed, where the error is the
    /// failure of one.
    pub open spec fn version(self) -> Option<int> {
        match self {
            ErrorView::Begin { version, .. } => Some(version),
            ErrorView::Statement { version, .. } => Some(version),
            ErrorView::Record { version, .. } => Some(version),
            ErrorView::Unrecorded { version, .. } => Some(version),
            ErrorView::Commit { version, .. } => Some(version),
            _ => None,
        }
    }
}

impl Error {
    /// Whether the error tells of a schema change that the history table
    /// does not show, so that an operator has to reconcile the two by hand.
    pub fn leaves_schema_changed(&self) -> (changed: bool)
        ensures
            changed == self@.leaves_schema_changed(),
    {
        match self {
            Error::Unrecorded { .. } => true,
            _ => false,
        }
    }

    /// The version of the migration that failed, where the error is the
    /// failure of one.
    pub fn version(&self) -> (version: Option<i64>)
        ensures
            match version {
                Some(version) => self@.version() == Some(version as int),
                None => self@.version() is None,
            },
    {
        match self {
            Error::Begin { version, .. } => Some(*version),
            Error::Statement { version, .. } => Some(*version),
            Error::Record { version, .. } => Some(*version),
            Error::Unrecorded { version, .. } => Some(*version),
            Error::Commit { version, .. } => Some(*version),
            _ => None,
        }
    }
}

} // verus!
