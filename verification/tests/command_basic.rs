//! Basic checks of the command and argument builders.

use zfish::command::{App, Arg, Command};

#[test]
fn test_arg_creation() {
    let arg = Arg::new("test")
        .short('t')
        .long("test")
        .about("Test argument")
        .required(true);

    assert_eq!(arg.name(), "test");
    assert_eq!(arg.short, Some('t'));
    assert_eq!(arg.long, Some("test".to_string()));
}

#[test]
fn test_simple_command() {
    let app = App::new("test").version("1.0.0").about("Test app").arg(
        Arg::new("verbose")
            .short('v')
            .long("verbose")
            .takes_value(false),
    );

    let matches = app.try_get_matches_from(vec!["test", "--verbose"]).unwrap();

    assert!(matches.is_flag_set("verbose"));
}

#[test]
fn test_subcommand_parsing() {
    let app = App::new("git").subcommand(
        Command::new("commit").arg(
            Arg::new("message")
                .short('m')
                .long("message")
                .required(true),
        ),
    );

    let matches = app
        .try_get_matches_from(vec!["git", "commit", "-m", "Initial commit"])
        .unwrap();

    assert_eq!(matches.subcommand_name(), Some("commit"));
    let sub = matches.subcommand_matches("commit").unwrap();
    assert_eq!(sub.value_of("message"), Some("Initial commit"));
}

#[test]
fn test_help_generation() {
    let cmd = Command::new("test")
        .about("Test command")
        .version("1.0.0")
        .arg(
            Arg::new("verbose")
                .short('v')
                .long("verbose")
                .about("Verbose output"),
        );

    let help = cmd.generate_help();
    assert!(help.contains("Test command"));
    assert!(help.contains("--verbose"));
    assert!(help.contains("Verbose output"));
}
