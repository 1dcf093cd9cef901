//! The commands of the tool and their options.

pub mod common;
pub mod schema;
pub mod shell;

use vstd::prelude::*;
use crate::commands::schema::SchemaCommand;
use crate::commands::shell::ShellCommand;

verus! {

/// What the tool was asked to do.
#[derive(Clone, Debug, PartialEq, Eq)]
pub struct ApplicationArguments {
    /// Be verbose.
    pub verbose: bool,
    pub command: Command,
}

/// The commands of the tool.
#[derive(Clone, Debug, PartialEq, Eq)]
pub enum Command {
    /// Export data.
    Export(ExportCommand),
    /// Show the schema of a database.
    Schema(SchemaCommand),
    /// Open an interactive client.
    Shell(ShellCommand),
}

/// The batch size that an export uses where none is given.
pub const DEFAULT_BATCH_SIZE: u32 = 500;

/// An export: where the rows come from and how many are fetched at a time.
#[derive(Clone, Debug, PartialEq, Eq)]
pub struct ExportCommand {
    /// The number of rows of one batch.
    pub batch_size: u32,
    pub source: SourceCommand,
}

/// The database that an export reads.
#[derive(Clone, Debug, PartialEq, Eq)]
pub enum SourceCommand {
    Mysql(MysqlSourceOptions),
    Postgres(PostgresSourceOptions),
}

/// The file that an export writes.
#[derive(Debug, PartialEq, Eq)]
pub enum DestinationCommand {
    /// A table of an SQLite file.
    Sqlite(SqliteDestinationOptions),
    /// A CSV file.
    CSV(CSVDestinationOptions),
    /// A text file with the columns of each row one below the other.
    TextVertical(TextVerticalDestinationOptions),
}

#[derive(Debug, PartialEq, Eq)]
pub struct SqliteDestinationOptions {
    /// The name of the SQLite file.
    pub filename: String,
    /// The name of the table.
    pub table: String,
}

#[derive(Debug, PartialEq, Eq)]
pub struct CSVDestinationOptions {
    /// The name of the CSV file.
    pub filename: String,
}

#[derive(Debug, PartialEq, Eq)]
pub struct TextVerticalDestinationOptions {
    /// The name of the text file.
    pub filename: String,
    /// The length after which a value is cut off.
    pub truncate: Option<u64>,
}

#[derive(Clone, Debug, PartialEq, Eq)]
pub struct TextDestinationOptions {
    /// The name of the text file.
    pub filename: String,
}

#[derive(Clone, Debug, PartialEq, Eq)]
pub struct HTMLDestinationOptions {
    /// The name of the HTML file.
    pub filename: String,
    /// The title of the page.
    pub title: String,
}

#[derive(Clone, Debug, PartialEq, Eq)]
pub struct JSONDestinationOptions {
    /// The name of the JSON file.
    pub filename: String,
    /// Do not indent the content.
    pub compact: bool,
}

/// How to reach a MySQL server, what to ask it and where the answer goes.
#[derive(Debug, PartialEq, Eq)]
pub struct MysqlSourceOptions {
    pub host: Option<String>,
    pub user: Option<String>,
    pub password: Option<String>,
    pub port: Option<u16>,
    pub socket: Option<String>,
    pub database: Option<String>,
    /// Statements that are run when the connection is made.
    pub init: Vec<String>,
    /// The timeout, in seconds, for connecting, reading and writing.
    pub timeout: Option<u64>,
    /// The query whose result is exported.
    pub query: String,
    /// Run another query first to learn the number of rows.
    pub count: bool,
    pub destination: DestinationCommand,
}

/// How to reach a PostgreSQL server, what to ask it and where the answer
/// goes.
#[derive(Debug, PartialEq, Eq)]
pub struct PostgresSourceOptions {
    pub host: Option<String>,
    pub user: Option<String>,
    pub password: Option<String>,
    pub port: Option<u16>,
    pub database: Option<String>,
    /// Statements that are run when the connection is made.
    pub init: Vec<String>,
    /// The timeout, in seconds, for connecting.
    pub timeout: Option<u64>,
    /// The query whose result is exported.
    pub query: Option<String>,
    /// The file that holds the query, where none is given directly.
    pub query_file: Option<String>,
    /// Run another query first to learn the number of rows.
    pub count: bool,
    pub destination: DestinationCommand,
}

impl Clone for SqliteDestinationOptions {
    fn clone(&self) -> (r: Self)
        ensures
            r == *self,
    {
        SqliteDestinationOptions { filename: self.filename.clone(), table: self.table.clone() }
    }
}

impl Clone for CSVDestinationOptions {
    fn clone(&self) -> (r: Self)
        ensures
            r == *self,
    {
        CSVDestinationOptions { filename: self.filename.clone() }
    }
}

impl Clone for TextVerticalDestinationOptions {
    fn clone(&self) -> (r: Self)
        ensures
            r == *self,
    {
        TextVerticalDestinationOptions { filename: self.filename.clone(), truncate: self.truncate }
    }
}

impl Clone for DestinationCommand {
    fn clone(&self) -> (r: Self)
        ensures
            r == *self,
    {
        match self {
            DestinationCommand::Sqlite(options) => DestinationCommand::Sqlite(options.clone()),
            DestinationCommand::CSV(options) => DestinationCommand::CSV(options.clone()),
            DestinationCommand::TextVertical(options) => DestinationCommand::TextVertical(
                options.clone(),
            ),
        }
    }
}

/// The two have the same options.
pub open spec fn same_mysql_options(a: MysqlSourceOptions, b: MysqlSourceOptions) -> bool {
    &&& a.host == b.host
    &&& a.user == b.user
    &&& a.password == b.password
    &&& a.port == b.port
    &&& a.socket == b.socket
    &&& a.database == b.database
    &&& a.init@ == b.init@
    &&& a.timeout == b.timeout
    &&& a.query == b.query
    &&& a.count == b.count
    &&& a.destination == b.destination
}

impl Clone for MysqlSourceOptions {
    fn clone(&self) -> (r: Self)
        ensures
            same_mysql_options(r, *self),
    {
        MysqlSourceOptions {
            host: self.host.clone(),
            user: self.user.clone(),
            password: self.password.clone(),
            port: self.port,
            socket: self.socket.clone(),
            database: self.database.clone(),
            init: self.init.clone(),
            timeout: self.timeout,
            query: self.query.clone(),
            count: self.count,
            destination: self.destination.clone(),
        }
    }
}

/// The two have the same options.
pub open spec fn same_postgres_options(a: PostgresSourceOptions, b: PostgresSourceOptions) -> bool {
    &&& a.host == b.host
    &&& a.user == b.user
    &&& a.password == b.password
    &&& a.port == b.port
    &&& a.database == b.database
    &&& a.init@ == b.init@
    &&& a.timeout == b.timeout
    &&& a.query == b.query
    &&& a.query_file == b.query_file
    &&& a.count == b.count
    &&& a.destination == b.destination
}

impl Clone for PostgresSourceOptions {
    fn clone(&self) -> (r: Self)
        ensures
            same_postgres_options(r, *self),
    {
        PostgresSourceOptions {
            host: self.host.clone(),
            user: self.user.clone(),
            password: self.password.clone(),
            port: self.port,
            database: self.database.clone(),
            init: self.init.clone(),
            timeout: self.timeout,
            query: self.query.clone(),
            query_file: self.query_file.clone(),
            count: self.count,
            destination: self.destination.clone(),
        }
    }
}

} // verus!
