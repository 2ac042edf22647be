//! A schema-migration engine.
//!
//! Given the declared migrations and the rows of a history table, the
//! engine says which migrations are still to be applied and in which
//! order, and leads a backend through applying them: which statement to
//! execute next, when to record a migration in the history table, when to
//! commit and when to give up. The engine holds no connection. A backend
//! performs each action and tells the engine how it went.
//!
//! - [`migration`]: a declared migration, its record, a history row.
//! - [`history`] and [`postgres`]: the history table and its SQL.
//! - [`engine`]: the queries on the history table besides an apply.
//! - [`version`]: the version that a database stands at.
//! - [`plan`]: the migrations that are pending.
//! - [`validate`]: declared migrations against history.
//! - [`apply`]: applying one migration, inside or outside a transaction.
//! - [`runner`]: applying a plan, up to the first failure.
//! - [`store`]: what all of this does to a database, and the laws it keeps.

pub mod apply;
pub mod engine;
pub mod error;
pub mod history;
pub mod migration;
pub mod plan;
pub mod postgres;
pub mod runner;
pub mod store;
pub mod validate;
pub mod version;
