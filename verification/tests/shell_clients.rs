use dbexport::commands::common::{
    MysqlConfigOptions, PostgresConfigOptions, SourceConfigCommand, SourceConfigCommandWrapper,
    SqliteConfigOptions,
};
use dbexport::commands::shell::{
    mycli_client, mysql_client, mysql_python_client, shell, EnvironmentVariable, Invocation,
    ShellAction, ShellCommand,
};
use dbexport::commands::{ApplicationArguments, Command};

fn full_options() -> MysqlConfigOptions {
    MysqlConfigOptions {
        host: Some("db.example.org".to_string()),
        user: Some("reader".to_string()),
        password: Some("secret".to_string()),
        port: Some(3307),
        socket: None,
        database: Some("shop".to_string()),
        init: vec![],
        timeout: None,
    }
}

fn empty_options() -> MysqlConfigOptions {
    MysqlConfigOptions {
        host: None,
        user: None,
        password: None,
        port: None,
        socket: None,
        database: None,
        init: vec![],
        timeout: None,
    }
}

fn texts(items: &[&str]) -> Vec<String> {
    items.iter().map(|item| item.to_string()).collect()
}

fn variable(name: &str, value: &str) -> EnvironmentVariable {
    EnvironmentVariable { name: name.to_string(), value: value.to_string() }
}

fn command(client: &str, source: SourceConfigCommand) -> ShellCommand {
    ShellCommand { client: client.to_string(), source: SourceConfigCommandWrapper(source) }
}

fn run(command: &ShellCommand) -> ShellAction {
    let arguments = ApplicationArguments { verbose: true, command: Command::Shell(command.clone()) };
    shell(&arguments, command)
}

#[test]
fn mysql_client_gets_every_option_that_has_a_value() {
    assert_eq!(
        mysql_client(&full_options()),
        Invocation {
            program: "mysql".to_string(),
            args: texts(&["-h", "db.example.org", "-u", "reader", "-P", "3307", "-psecret", "shop"]),
        }
    );
    assert_eq!(mysql_client(&empty_options()), Invocation { program: "mysql".to_string(), args: vec![] });
}

#[test]
fn mycli_client_gets_the_same_arguments() {
    let mut options = empty_options();
    options.user = Some("root".to_string());
    options.password = Some(String::new());
    assert_eq!(
        mycli_client(&options),
        Invocation { program: "mycli".to_string(), args: texts(&["-u", "root", "-p"]) }
    );
    assert_eq!(mycli_client(&full_options()).args, mysql_client(&full_options()).args);
}

#[test]
fn python_client_gets_its_environment() {
    assert_eq!(
        mysql_python_client(&full_options()),
        vec![
            variable("MYSQL_HOST", "db.example.org"),
            variable("MYSQL_USER", "reader"),
            variable("MYSQL_PORT", "3307"),
            variable("MYSQL_PASSWORD", "secret"),
            variable("MYSQL_DATABASE", "shop"),
        ]
    );
    assert_eq!(mysql_python_client(&empty_options()), vec![]);
    let mut options = empty_options();
    options.port = Some(0);
    assert_eq!(mysql_python_client(&options), vec![variable("MYSQL_PORT", "0")]);
}

#[test]
fn shell_picks_the_client_by_its_name() {
    let source = SourceConfigCommand::Mysql(full_options());
    assert_eq!(run(&command("mysql", source.clone())), ShellAction::Run(mysql_client(&full_options())));
    assert_eq!(run(&command("mycli", source.clone())), ShellAction::Run(mycli_client(&full_options())));
    assert_eq!(
        run(&command("python", source)),
        ShellAction::RunPython(mysql_python_client(&full_options()))
    );
}

#[test]
fn shell_reports_an_unknown_client() {
    let source = SourceConfigCommand::Mysql(empty_options());
    assert_eq!(
        run(&command("psql", source.clone())),
        ShellAction::UnknownClient("unknown client: psql".to_string())
    );
    assert_eq!(
        run(&command("MySQL", source.clone())),
        ShellAction::UnknownClient("unknown client: MySQL".to_string())
    );
    assert_eq!(run(&command("", source)), ShellAction::UnknownClient("unknown client: ".to_string()));
}

#[test]
fn shell_has_no_client_for_the_other_sources() {
    let sqlite = SourceConfigCommand::Sqlite(SqliteConfigOptions { filename: "data.sqlite".to_string() });
    let postgres = SourceConfigCommand::Postgres(PostgresConfigOptions {
        host: None,
        user: None,
        password: None,
        port: None,
        database: None,
        init: vec![],
        timeout: None,
    });
    assert_eq!(run(&command("mysql", sqlite)), ShellAction::Nothing);
    assert_eq!(run(&command("nothing", postgres)), ShellAction::Nothing);
}
