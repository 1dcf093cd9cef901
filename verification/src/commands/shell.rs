//! The interactive clients: with which arguments and in which environment
//! each is started.

use vstd::prelude::*;
use vstd::string::StringExecFns;
use crate::commands::ApplicationArguments;
use crate::commands::common::{MysqlConfigOptions, SourceConfigCommand, SourceConfigCommandWrapper};
use crate::sources::mysql::{GetMysqlConnectionParams, MysqlParamsView};
use crate::text::{decimal, decimal_text, texts_of};

verus! {

/// The command that opens an interactive client.
#[derive(Clone, Debug, PartialEq, Eq)]
pub struct ShellCommand {
    /// The client to start: `mysql`, `mycli` or `python`.
    pub client: String,
    pub source: SourceConfigCommandWrapper,
}

/// A program and the arguments that it is started with.
#[derive(Clone, Debug, PartialEq, Eq)]
pub struct Invocation {
    pub program: String,
    pub args: Vec<String>,
}

/// A variable of the environment and the value that it is set to.
#[derive(Clone, Debug, PartialEq, Eq)]
pub struct EnvironmentVariable {
    pub name: String,
    pub value: String,
}

/// A variable of the environment as a mathematical value.
pub struct EnvironmentVariableView {
    pub name: Seq<char>,
    pub value: Seq<char>,
}

impl View for EnvironmentVariable {
    type V = EnvironmentVariableView;

    open spec fn view(&self) -> EnvironmentVariableView {
        EnvironmentVariableView { name: self.name@, value: self.value@ }
    }
}

/// The variables as mathematical values.
pub open spec fn environment_view(variables: Seq<EnvironmentVariable>) -> Seq<
    EnvironmentVariableView,
> {
    Seq::new(variables.len(), |i: int| variables[i]@)
}

/// What the shell command asks for.
#[derive(Clone, Debug, PartialEq, Eq)]
pub enum ShellAction {
    /// Start the program and wait for it.
    Run(Invocation),
    /// Set the variables and start the Python client.
    RunPython(Vec<EnvironmentVariable>),
    /// Report that the client is not known and end with exit code 1.
    UnknownClient(String),
    /// The source has no interactive client.
    Nothing,
}

/// An option and its value, where there is a value.
pub open spec fn option_with_value(option: Seq<char>, value: Option<Seq<char>>) -> Seq<Seq<char>> {
    match value {
        Some(text) => seq![option, text],
        None => Seq::empty(),
    }
}

/// The arguments of the MySQL command-line clients: `-h` and the host,
/// `-u` and the user, `-P` and the port, `-p` with the password joined to
/// it, and the database, each only where the options hold a value.
pub open spec fn client_arguments(params: MysqlParamsView) -> Seq<Seq<char>> {
    option_with_value("-h"@, params.hostname) + option_with_value("-u"@, params.username)
        + option_with_value(
        "-P"@,
        match params.port {
            Some(port) => Some(decimal(port as nat)),
            None => None,
        },
    ) + (match params.password {
        Some(password) => seq!["-p"@ + password],
        None => Seq::empty(),
    }) + (match params.database {
        Some(database) => seq![database],
        None => Seq::empty(),
    })
}

/// Appends an option and its value, where there is a value.
fn push_option(args: &mut Vec<String>, option: &str, value: &Option<String>)
    ensures
        texts_of(final(args)@) == texts_of(old(args)@) + option_with_value(
            option@,
            match *value {
                Some(text) => Some(text@),
                None => None,
            },
        ),
{
    match value {
        Some(text) => {
            args.push(String::from_str(option));
            args.push(text.clone());
            assert(texts_of(args@) =~= texts_of(old(args)@) + seq![option@, text@]);
        },
        None => {
            assert(texts_of(args@) =~= texts_of(old(args)@) + Seq::<Seq<char>>::empty());
        },
    }
}

/// The arguments of the MySQL command-line clients.
fn mysql_arguments(options: &MysqlConfigOptions) -> (args: Vec<String>)
    ensures
        texts_of(args@) == client_arguments(options.params()),
{
    let mut args: Vec<String> = Vec::new();
    assert(texts_of(args@) =~= Seq::<Seq<char>>::empty());
    push_option(&mut args, "-h", &options.host);
    push_option(&mut args, "-u", &options.user);
    let port = match options.port {
        Some(port) => Some(decimal_text(port as u64)),
        None => None,
    };
    push_option(&mut args, "-P", &port);
    let ghost before = texts_of(args@);
    match &options.password {
        Some(password) => {
            let mut joined = String::from_str("-p");
            joined.append(password.as_str());
            args.push(joined);
            assert(texts_of(args@) =~= before + seq!["-p"@ + password@]);
        },
        None => {
            assert(texts_of(args@) =~= before + Seq::<Seq<char>>::empty());
        },
    }
    let ghost before = texts_of(args@);
    match &options.database {
        Some(database) => {
            args.push(database.clone());
            assert(texts_of(args@) =~= before + seq![database@]);
        },
        None => {
            assert(texts_of(args@) =~= before + Seq::<Seq<char>>::empty());
        },
    }
    assert(texts_of(args@) =~= client_arguments(options.params()));
    args
}

/// How the `mysql` client is started for the server of the options.
pub fn mysql_client(mysql_config_options: &MysqlConfigOptions) -> (r: Invocation)
    ensures
        r.program@ == "mysql"@,
        texts_of(r.args@) == client_arguments(mysql_config_options.params()),
{
    Invocation { program: String::from_str("mysql"), args: mysql_arguments(mysql_config_options) }
}

/// How the `mycli` client is started for the server of the options.
pub fn mycli_client(mysql_config_options: &MysqlConfigOptions) -> (r: Invocation)
    ensures
        r.program@ == "mycli"@,
        texts_of(r.args@) == client_arguments(mysql_config_options.params()),
{
    Invocation { program: String::from_str("mycli"), args: mysql_arguments(mysql_config_options) }
}

/// A variable, where there is a value for it.
pub open spec fn variable_with_value(name: Seq<char>, value: Option<Seq<char>>) -> Seq<
    EnvironmentVariableView,
> {
    match value {
        Some(text) => seq![EnvironmentVariableView { name, value: text }],
        None => Seq::empty(),
    }
}

/// The variables that tell the Python client where the server is:
/// `MYSQL_HOST`, `MYSQL_USER`, `MYSQL_PORT`, `MYSQL_PASSWORD` and
/// `MYSQL_DATABASE`, each only where the options hold a value.
pub open spec fn client_environment(params: MysqlParamsView) -> Seq<EnvironmentVariableView> {
    variable_with_value("MYSQL_HOST"@, params.hostname) + variable_with_value(
        "MYSQL_USER"@,
        params.username,
    ) + variable_with_value(
        "MYSQL_PORT"@,
        match params.port {
            Some(port) => Some(decimal(port as nat)),
            None => None,
        },
    ) + variable_with_value("MYSQL_PASSWORD"@, params.password) + variable_with_value(
        "MYSQL_DATABASE"@,
        params.database,
    )
}

/// Appends a variable, where there is a value for it.
fn push_variable(variables: &mut Vec<EnvironmentVariable>, name: &str, value: &Option<String>)
    ensures
        environment_view(final(variables)@) == environment_view(old(variables)@)
            + variable_with_value(
            name@,
            match *value {
                Some(text) => Some(text@),
                None => None,
            },
        ),
{
    match value {
        Some(text) => {
            variables.push(EnvironmentVariable { name: String::from_str(name), value: text.clone() });
            assert(environment_view(variables@) =~= environment_view(old(variables)@)
                + seq![EnvironmentVariableView { name: name@, value: text@ }]);
        },
        None => {
            assert(environment_view(variables@) =~= environment_view(old(variables)@)
                + Seq::<EnvironmentVariableView>::empty());
        },
    }
}

/// The environment in which the Python client is started for the server
/// of the options.
pub fn mysql_python_client(mysql_config_options: &MysqlConfigOptions) -> (r: Vec<
    EnvironmentVariable,
>)
    ensures
        environment_view(r@) == client_environment(mysql_config_options.params()),
{
    let mut variables: Vec<EnvironmentVariable> = Vec::new();
    assert(environment_view(variables@) =~= Seq::<EnvironmentVariableView>::empty());
    push_variable(&mut variables, "MYSQL_HOST", &mysql_config_options.host);
    push_variable(&mut variables, "MYSQL_USER", &mysql_config_options.user);
    let port = match mysql_config_options.port {
        Some(port) => Some(decimal_text(port as u64)),
        None => None,
    };
    push_variable(&mut variables, "MYSQL_PORT", &port);
    push_variable(&mut variables, "MYSQL_PASSWORD", &mysql_config_options.password);
    push_variable(&mut variables, "MYSQL_DATABASE", &mysql_config_options.database);
    assert(environment_view(variables@) =~= client_environment(mysql_config_options.params()));
    variables
}

/// The message that reports an unknown client.
pub open spec fn unknown_client_message(client: Seq<char>) -> Seq<char> {
    "unknown client: "@ + client
}

/// What the shell command asks for: for a MySQL server the client that
/// the command names, or a report where it names none of `mycli`,
/// `mysql` and `python`; nothing for the other sources.
pub fn shell(_args: &ApplicationArguments, shell_command: &ShellCommand) -> (r: ShellAction)
    ensures
        match shell_command.source.0 {
            SourceConfigCommand::Mysql(options) => if shell_command.client@ == "mycli"@ {
                r matches ShellAction::Run(invocation) && invocation.program@ == "mycli"@
                    && texts_of(invocation.args@) == client_arguments(options.params())
            } else if shell_command.client@ == "mysql"@ {
                r matches ShellAction::Run(invocation) && invocation.program@ == "mysql"@
                    && texts_of(invocation.args@) == client_arguments(options.params())
            } else if shell_command.client@ == "python"@ {
                r matches ShellAction::RunPython(variables) && environment_view(variables@)
                    == client_environment(options.params())
            } else {
                r matches ShellAction::UnknownClient(message) && message@
                    == unknown_client_message(shell_command.client@)
            },
            _ => r == ShellAction::Nothing,
        },
{
    match &shell_command.source.0 {
        SourceConfigCommand::Mysql(options) => {
            if shell_command.client == String::from_str("mycli") {
                ShellAction::Run(mycli_client(options))
            } else if shell_command.client == String::from_str("mysql") {
                ShellAction::Run(mysql_client(options))
            } else if shell_command.client == String::from_str("python") {
                ShellAction::RunPython(mysql_python_client(options))
            } else {
                let mut message = String::from_str("unknown client: ");
                message.append(shell_command.client.as_str());
                ShellAction::UnknownClient(message)
            }
        },
        _ => ShellAction::Nothing,
    }
}

} // verus!
