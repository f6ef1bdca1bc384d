//! A schema-migration engine for vector databases: the revision graph of the
//! declared migrations, the ledger of the applied ones, and the decisions of
//! the driver that brings a store from one revision to another.

pub mod chain;
pub mod children;
pub mod cli;
pub mod context;
pub mod driver;
pub mod graph;
pub mod handle;
pub mod index;
pub mod laws;
pub mod ledger;
pub mod migrator;
pub mod plan;
pub mod revision;
pub mod scaffold;
pub mod semver;
pub mod template;
pub mod text;

pub use cli::{parse_migration_name, MigrateSubcommands};
pub use context::ContextError;
pub use driver::{Action, Driver, Event, MigratorTrait};
pub use graph::{Node, RevisionGraph, RevisionGraphError};
pub use ledger::Applied;
pub use migrator::{Direction, Migration, MigrationError, MigrationStatus};
pub use revision::{Metadata, MigrationMeta, Revision};
pub use scaffold::{get_file_stem, MigrateError};
pub use template::{MigrationTemplate, MigratorTemplate, RevisionTemplate};
