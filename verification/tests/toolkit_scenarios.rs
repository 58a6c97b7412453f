//! End-to-end scenarios: the documented example flows, one input for
//! each error kind, and exact expected text for the formatting helpers.

use zfish::command::{App, Arg, ArgGroup, Command, CommandError};
use zfish::log::{Level, Logger};
use zfish::progress::{ProgressBar, ProgressStyle};
use zfish::style::{Color, Style};
use zfish::table::{Alignment, BoxStyle, Table};
use zfish::unicode::display_width;
use zfish::Args;

#[test]
fn scenario_git_commit_message() {
    let app = App::new("git").subcommand(
        Command::new("commit").arg(
            Arg::new("message")
                .short('m')
                .long("message")
                .required(true),
        ),
    );
    let matches = app
        .try_get_matches_from(vec!["git", "commit", "-m", "Initial commit"])
        .unwrap();
    assert_eq!(matches.subcommand_name(), Some("commit"));
    let sub = matches.subcommand_matches("commit").unwrap();
    assert_eq!(sub.value_of("message"), Some("Initial commit"));
}

#[test]
fn scenario_combined_flags_all_present() {
    let app = App::new("test")
        .arg(Arg::new("verbose").short('v').takes_value(false))
        .arg(Arg::new("debug").short('d').takes_value(false))
        .arg(Arg::new("quiet").short('q').takes_value(false));
    let matches = app.try_get_matches_from(vec!["test", "-vdq"]).unwrap();
    assert!(matches.is_present("verbose"));
    assert!(matches.is_present("debug"));
    assert!(matches.is_present("quiet"));
}

#[test]
fn scenario_delimiter_trims_pieces() {
    let app = App::new("test").arg(Arg::new("tags").long("tags").value_delimiter(','));
    let matches = app
        .try_get_matches_from(vec!["test", "--tags", "rust, cli , tool"])
        .unwrap();
    let tags: Vec<String> = vec!["rust".to_string(), "cli".to_string(), "tool".to_string()];
    assert_eq!(matches.values_of("tags"), Some(tags.as_slice()));
}

#[test]
fn scenario_missing_dependency() {
    let app = App::new("test")
        .arg(Arg::new("output").long("output").requires_arg("format"))
        .arg(Arg::new("format").long("format"));
    let result = app.try_get_matches_from(vec!["test", "--output", "out.txt"]);
    assert_eq!(
        result,
        Err(CommandError::MissingDependency(
            "output".to_string(),
            "format".to_string()
        ))
    );
}

#[test]
fn scenario_variadic_positional_after_flag() {
    let app = App::new("test")
        .arg(Arg::new("verbose").short('v').takes_value(false))
        .arg(Arg::new("files").index(0).last(true));
    let matches = app
        .try_get_matches_from(vec!["test", "-v", "a.txt", "b.txt", "c.txt"])
        .unwrap();
    assert!(matches.is_present("verbose"));
    let files: Vec<String> = vec![
        "a.txt".to_string(),
        "b.txt".to_string(),
        "c.txt".to_string(),
    ];
    assert_eq!(matches.values_of("files"), Some(files.as_slice()));
}

#[test]
fn scenario_env_beats_default() {
    let app = App::new("app").arg(
        Arg::new("config")
            .long("config")
            .env("APP_CONFIG")
            .default_value("config.toml"),
    );
    let env = vec![("APP_CONFIG".to_string(), "from_env.toml".to_string())];
    let matches = app.try_get_matches_from_env(vec!["app"], &env).unwrap();
    assert_eq!(matches.value_of("config"), Some("from_env.toml"));
}

#[test]
fn scenario_default_without_env() {
    let app = App::new("app").arg(
        Arg::new("config")
            .long("config")
            .env("APP_CONFIG")
            .default_value("config.toml"),
    );
    let env: Vec<(String, String)> = Vec::new();
    let matches = app.try_get_matches_from_env(vec!["app"], &env).unwrap();
    assert_eq!(matches.value_of("config"), Some("config.toml"));
}

#[test]
fn equals_and_space_forms_agree() {
    let app1 = App::new("test").arg(Arg::new("output").long("output"));
    let m1 = app1
        .try_get_matches_from(vec!["test", "--output=file.txt"])
        .unwrap();
    let app2 = App::new("test").arg(Arg::new("output").long("output"));
    let m2 = app2
        .try_get_matches_from(vec!["test", "--output", "file.txt"])
        .unwrap();
    assert_eq!(m1.value_of("output"), m2.value_of("output"));
}

#[test]
fn default_value_reparses_to_same_value() {
    let app1 = App::new("test").arg(Arg::new("threads").long("threads").default_value("4"));
    let m1 = app1.try_get_matches_from(vec!["test"]).unwrap();
    let rendered = m1.value_of("threads").unwrap().to_string();

    let app2 = App::new("test").arg(Arg::new("threads").long("threads").default_value("4"));
    let m2 = app2
        .try_get_matches_from(vec!["test", "--threads", &rendered])
        .unwrap();
    assert_eq!(m1.value_of("threads"), m2.value_of("threads"));
}

#[test]
fn help_is_deterministic_on_equal_descriptors() {
    let build = || {
        Command::new("tool")
            .about("A tool")
            .version("0.1.0")
            .arg(Arg::new("input").index(0).required(true))
            .arg(Arg::new("verbose").short('v').long("verbose").takes_value(false))
            .subcommand(Command::new("run").about("Run it").alias("r"))
    };
    let h1 = build().generate_help();
    let h2 = build().generate_help();
    assert_eq!(h1, h2);
}

#[test]
fn help_upper_cases_argument_names() {
    let cmd = Command::new("tool").arg(Arg::new("output").short('o').long("output"));
    let help = cmd.generate_help();
    assert!(help.contains(" <OUTPUT>"));
}

#[test]
fn validation_error_names_value_and_choices() {
    let app = App::new("test").arg(
        Arg::new("level")
            .long("level")
            .possible_values(&["debug", "info"]),
    );
    let result = app.try_get_matches_from(vec!["test", "--level", "bad"]);
    assert_eq!(
        result,
        Err(CommandError::ValidationError(
            "level".to_string(),
            "invalid value 'bad', expected one of: debug, info".to_string()
        ))
    );
}

#[test]
fn conflict_error_names_both_arguments() {
    let app = App::new("test")
        .arg(
            Arg::new("verbose")
                .short('v')
                .takes_value(false)
                .conflicts_with("quiet"),
        )
        .arg(Arg::new("quiet").short('q').takes_value(false));
    let result = app.try_get_matches_from(vec!["test", "-v", "-q"]);
    assert_eq!(
        result,
        Err(CommandError::ArgumentConflict(
            "verbose".to_string(),
            "quiet".to_string()
        ))
    );
}

#[test]
fn required_group_with_no_member_fails() {
    let cmd = Command::new("test")
        .arg(Arg::new("json").long("json").takes_value(false))
        .arg(Arg::new("yaml").long("yaml").takes_value(false))
        .group(ArgGroup::new("format").args(&["json", "yaml"]).required(true));
    let app = App { command: cmd };
    let result = app.try_get_matches_from(vec!["test"]);
    assert_eq!(
        result,
        Err(CommandError::MissingArgument(
            "format (one of: json, yaml)".to_string()
        ))
    );
}

#[test]
fn group_with_two_members_conflicts() {
    let cmd = Command::new("test")
        .arg(Arg::new("json").long("json").takes_value(false))
        .arg(Arg::new("yaml").long("yaml").takes_value(false))
        .group(ArgGroup::new("format").args(&["json", "yaml"]));
    let app = App { command: cmd };
    let result = app.try_get_matches_from(vec!["test", "--json", "--yaml"]);
    assert_eq!(
        result,
        Err(CommandError::ArgumentConflict(
            "json".to_string(),
            "yaml".to_string()
        ))
    );
}

#[test]
fn error_messages_read_as_documented() {
    let e = CommandError::MissingArgument("name".to_string());
    assert_eq!(e.message(), "error: the argument 'name' is required");
    let e = CommandError::UnknownArgument("x".to_string());
    assert_eq!(e.message(), "error: unknown argument 'x'");
    let e = CommandError::UnknownSubcommand("frob".to_string());
    assert_eq!(e.message(), "error: unknown subcommand 'frob'");
    let e = CommandError::InvalidValue("level".to_string(), "bad".to_string());
    assert_eq!(e.message(), "error: invalid value 'bad' for 'level'");
    let e = CommandError::MissingDependency("a".to_string(), "b".to_string());
    assert_eq!(e.message(), "error: the argument 'a' requires 'b'");
    let e = CommandError::ArgumentConflict("a".to_string(), "b".to_string());
    assert_eq!(e.message(), "error: the argument 'a' cannot be used with 'b'");
    assert_eq!(CommandError::HelpRequested.message(), "help requested");
    assert_eq!(CommandError::VersionRequested.message(), "version requested");
}

#[test]
fn positional_tokens_before_subcommand_stay_at_parent() {
    let app = App::new("tool")
        .arg(Arg::new("input").index(0))
        .subcommand(Command::new("run"));
    let matches = app
        .try_get_matches_from(vec!["tool", "thing", "run"])
        .unwrap();
    assert_eq!(matches.value_of("input"), Some("thing"));
    assert_eq!(matches.subcommand_name(), Some("run"));
}

#[test]
fn last_write_wins_for_single_valued_options() {
    let app = App::new("test").arg(Arg::new("output").long("output"));
    let matches = app
        .try_get_matches_from(vec!["test", "--output", "a", "--output", "b"])
        .unwrap();
    assert_eq!(matches.value_of("output"), Some("b"));
}

#[test]
fn subcommand_alias_matches() {
    let app = App::new("tool").subcommand(Command::new("build").alias("b"));
    let matches = app.try_get_matches_from(vec!["tool", "b"]).unwrap();
    assert_eq!(matches.subcommand_name(), Some("b"));
}

#[test]
fn args_scanner_full_pass() {
    let tokens: Vec<String> = vec![
        "prog".to_string(),
        "input.bin".to_string(),
        "-abc".to_string(),
        "--file=notes.txt".to_string(),
        "--out".to_string(),
        "result.txt".to_string(),
        "--verbose".to_string(),
    ];
    let args = Args::parse_from(&tokens);
    assert_eq!(args.command, "prog");
    assert!(args.has_flag("a"));
    assert!(args.has_flag("b"));
    // the token after "-abc" begins with a dash, so "c" stays a flag
    assert!(args.has_flag("c"));
    assert!(args.get_option("c").is_none());
    // a trailing long token with nothing after it is a flag
    assert!(args.has_flag("verbose"));
    assert_eq!(args.get_option("file"), Some(&"notes.txt".to_string()));
    assert_eq!(args.get_option("out"), Some(&"result.txt".to_string()));
    assert_eq!(args.positional, vec!["input.bin".to_string()]);
}

#[test]
fn display_width_counts_cells() {
    assert_eq!(display_width("hello"), 5);
    assert_eq!(display_width(""), 0);
    assert_eq!(display_width("你好"), 4);
    assert_eq!(display_width("🚀"), 2);
    assert_eq!(display_width("héllo"), 5);
}

#[test]
fn ansi_rendering_is_exact() {
    let green = Color::Green.paint("Success");
    assert_eq!(green.ansi_string(), "\x1b[32mSuccess\x1b[0m");
    let fancy = Color::Red.paint("Error").style(Style::Bold);
    assert_eq!(fancy.ansi_string(), "\x1b[31;1mError\x1b[0m");
    let custom = Color::Custom(196).to_fg_code_string();
    assert_eq!(custom, "38;5;196");
    assert_eq!(green.plain_string(), "Success");
}

#[test]
fn log_line_is_exact() {
    let line = Logger::format_line(Level::Error, 7, "boom");
    assert_eq!(line, "[7] \x1b[91mERROR\x1b[0m boom\n");
}

#[test]
fn progress_bar_shapes_are_exact() {
    let mut pb = ProgressBar::new(100).width(10).with_style(ProgressStyle::Classic);
    assert_eq!(pb.build_bar(4, 6), "====      ");
    let mut pb = ProgressBar::new(100).width(10).with_style(ProgressStyle::Arrow);
    assert_eq!(pb.build_bar(4, 6), "===>      ");
    let mut pb = ProgressBar::new(100).width(10).with_style(ProgressStyle::Dots);
    assert_eq!(pb.build_bar(4, 6), "****      ");
    let mut pb = ProgressBar::new(100).width(4).with_style(ProgressStyle::Spinner);
    assert_eq!(pb.build_bar(2, 2), "||  ");
}

#[test]
fn progress_counters_clamp() {
    let mut pb = ProgressBar::new(100);
    pb.inc(50);
    assert_eq!(pb.current, 50);
    pb.inc(100);
    assert_eq!(pb.current, 100);
    pb.set(7);
    assert_eq!(pb.current, 7);
}

#[test]
fn wide_cells_align_by_display_width() {
    let table = Table::new(vec!["x"]);
    let cell = table.format_cell("你好", 6, Alignment::Left);
    assert_eq!(cell, "你好  ");
    let cell = table.format_cell("你好", 6, Alignment::Right);
    assert_eq!(cell, "  你好");
}

#[test]
fn box_chars_heavy_and_rounded() {
    let heavy = BoxStyle::Heavy.chars();
    assert_eq!(heavy.top_left, '┏');
    let rounded = BoxStyle::Rounded.chars();
    assert_eq!(rounded.top_left, '╭');
}

#[test]
fn help_text_layout_exact() {
    let cmd = Command::new("demo")
        .about("Demo tool")
        .version("1.0")
        .arg(Arg::new("input").index(0).required(true).about("Input file"))
        .arg(
            Arg::new("verbose")
                .short('v')
                .long("verbose")
                .takes_value(false)
                .about("Chatty"),
        )
        .subcommand(Command::new("run").about("Run").alias("r"));
    let help = cmd.generate_help();
    let mut expected = String::new();
    expected.push_str("Demo tool\n");
    expected.push_str("\nVersion: 1.0\n");
    expected.push_str("\nUSAGE:\n    demo [OPTIONS] <INPUT> <COMMAND>\n");
    expected.push_str("\nARGS:\n");
    expected.push_str("    <INPUT>                   Input file [required]\n");
    expected.push_str("\nOPTIONS:\n");
    expected.push_str("    -v, --verbose             Chatty\n");
    expected.push_str("\nCOMMANDS:\n");
    expected.push_str("    run (r)                   Run\n");
    expected.push_str("\nRun '<COMMAND> --help' for more information on a specific command.\n");
    assert_eq!(help, expected);
}

#[test]
fn table_text_layout_exact() {
    let mut table = Table::new(vec!["A", "Bb"]);
    table.add_row(vec!["1", "2"]);
    let text = table.render();
    let mut expected = String::new();
    expected.push_str("   \u{250C}\u{2500}\u{2500}\u{2500}\u{252C}\u{2500}\u{2500}\u{2500}\u{2500}\u{2510}\n");
    expected.push_str("   \u{2502} A \u{2502} Bb \u{2502}\n");
    expected.push_str("   \u{251C}\u{2500}\u{2500}\u{2500}\u{253C}\u{2500}\u{2500}\u{2500}\u{2500}\u{2524}\n");
    expected.push_str("   \u{2502} 1 \u{2502} 2  \u{2502}\n");
    expected.push_str("   \u{2514}\u{2500}\u{2500}\u{2500}\u{2534}\u{2500}\u{2500}\u{2500}\u{2500}\u{2518}\n");
    assert_eq!(text, expected);
}
