//! The options that name a database without asking it anything yet.

use vstd::prelude::*;

verus! {

/// How to reach a MySQL server.
#[derive(Clone, Debug, PartialEq, Eq)]
pub struct MysqlConfigOptions {
    pub host: Option<String>,
    pub user: Option<String>,
    pub password: Option<String>,
    pub port: Option<u16>,
    pub socket: Option<String>,
    pub database: Option<String>,
    /// Statements that are run when the connection is made.
    pub init: Vec<String>,
    /// The timeout, in seconds, for connecting, reading and writing.
    pub timeout: Option<u64>,
}

/// How to reach a PostgreSQL server.
#[derive(Clone, Debug, PartialEq, Eq)]
pub struct PostgresConfigOptions {
    pub host: Option<String>,
    pub user: Option<String>,
    pub password: Option<String>,
    pub port: Option<u16>,
    pub database: Option<String>,
    /// Statements that are run when the connection is made.
    pub init: Vec<String>,
    /// The timeout, in seconds, for connecting.
    pub timeout: Option<u64>,
}

/// Where an SQLite database lies.
#[derive(Clone, Debug, PartialEq, Eq)]
pub struct SqliteConfigOptions {
    pub filename: String,
}

/// The database that a command works on.
#[derive(Clone, Debug, PartialEq, Eq)]
pub enum SourceConfigCommand {
    Mysql(MysqlConfigOptions),
    Sqlite(SqliteConfigOptions),
    Postgres(PostgresConfigOptions),
}

/// The database that a command works on, as a field of the command.
#[derive(Clone, Debug, PartialEq, Eq)]
pub struct SourceConfigCommandWrapper(pub SourceConfigCommand);

} // verus!
