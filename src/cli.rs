//! The command line's options, and how the migration targets given there
//! are read.

use vstd::prelude::*;
use crate::migration::{MigrationError, malformed_text, parse_version, version_of_text};

verus! {

/// Options of the log listing commands.
#[derive(Clone, Debug)]
pub struct ListOpts {
    /// The maximum amount of logs to show
    pub num_logs: Option<u64>,
}

/// The top-level commands.
#[derive(Clone, Debug)]
pub enum Command {
    /// List the known operator logs
    List(ListOpts),
    /// Synchronizes the certificate logs to the local database
    Sync(ListOpts),
    /// Perform database operations
    DbCommand(DbSubCommand),
}

/// The two directions of a migration command.
#[derive(Clone, Debug)]
pub enum MigrateCommand {
    /// Migrates the database to the specified version
    Up(MigrateUpOpts),
    /// Performs a rollback to the specified version
    Down(MigrateDownOpts),
}

/// The database commands.
#[derive(Clone, Debug)]
pub enum DbSubCommand {
    /// Perform migrations on the database
    Migrate(MigrateCommand),
}

/// Migration options in the down direction, where `version` is required.
/// The version `0` stands for the state before the first migration.
#[derive(Clone, Debug)]
pub struct MigrateDownOpts {
    /// The version to migrate to
    pub version: String,
}

/// Migration options in the up direction, where `version` may be left out
/// to migrate to the newest version.
#[derive(Clone, Debug)]
pub struct MigrateUpOpts {
    /// The version to migrate to
    pub version: Option<String>,
}

/// All command-line options.
#[derive(Clone, Debug)]
pub struct Opts {
    pub command: Command,
    /// PostgreSQL host
    pub postgres_url: String,
}

impl MigrateUpOpts {
    /// The target of a forward run: the given version, or `None` for the
    /// newest one.
    pub fn target(&self) -> (r: Result<Option<u64>, MigrationError>)
        ensures
            match self.version {
                None => r == Ok::<Option<u64>, MigrationError>(None),
                Some(text) => match r {
                    Ok(Some(v)) => version_of_text(text@, v),
                    Err(MigrationError::MalformedVersion) => malformed_text(text@),
                    _ => false,
                },
            },
    {
        match &self.version {
            None => Ok(None),
            Some(text) => match parse_version(text.as_str()) {
                Some(v) => Ok(Some(v)),
                None => Err(MigrationError::MalformedVersion),
            },
        }
    }
}

impl MigrateDownOpts {
    /// The target of a backward run: the given version, or `None` (before
    /// the first migration) for the version `0`.
    pub fn target(&self) -> (r: Result<Option<u64>, MigrationError>)
        ensures
            match r {
                Ok(Some(v)) => v != 0 && version_of_text(self.version@, v),
                Ok(None) => version_of_text(self.version@, 0),
                Err(MigrationError::MalformedVersion) => malformed_text(self.version@),
                Err(_) => false,
            },
    {
        match parse_version(self.version.as_str()) {
            Some(0) => Ok(None),
            Some(v) => Ok(Some(v)),
            None => Err(MigrationError::MalformedVersion),
        }
    }
}

} // verus!
