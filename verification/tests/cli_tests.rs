use homebrewconfig::cli::{parse_args, parse_kv, ArgAction, Cli};

#[test]
fn parse_kv_splits_on_first_equals() {
    assert_eq!(
        parse_kv("VAR=val"),
        Some(("VAR".to_string(), "val".to_string()))
    );
    // Value may itself contain '='.
    assert_eq!(
        parse_kv("VAR=a=b"),
        Some(("VAR".to_string(), "a=b".to_string()))
    );
    // Empty value is allowed (e.g. clearing a string).
    assert_eq!(parse_kv("VAR="), Some(("VAR".to_string(), String::new())));
}

#[test]
fn parse_kv_rejects_missing_key_or_equals() {
    assert_eq!(parse_kv("noequals"), None);
    assert_eq!(parse_kv("=val"), None);
}

#[test]
fn is_batch_only_when_a_batch_flag_is_set() {
    let mut cli = Cli::default();
    assert!(!cli.is_batch());
    cli.profile = Some("/x".to_string());
    assert!(!cli.is_batch()); // profile alone still launches the TUI
    cli.apply = true;
    assert!(cli.is_batch());
}

fn args(list: &[&str]) -> Vec<String> {
    list.iter().map(|s| s.to_string()).collect()
}

fn run(list: &[&str]) -> Cli {
    match parse_args(&args(list)) {
        ArgAction::Run(cli) => cli,
        _ => panic!("expected options for {:?}", list),
    }
}

fn fail(list: &[&str]) -> String {
    match parse_args(&args(list)) {
        ArgAction::Fail(m) => m,
        _ => panic!("expected an error for {:?}", list),
    }
}

#[test]
fn parse_args_collects_options() {
    let cli = run(&[
        "--set",
        "HOMEBREW_NO_ANALYTICS=1",
        "--set=HOMEBREW_TEMP=/t",
        "--unset",
        "HOMEBREW_CACHE",
        "--unset=HOMEBREW_LOGS",
        "-p",
        "/a",
        "--import-preset=/i.toml",
        "--export-preset",
        "/e.toml",
        "--dry-run",
        "--json",
    ]);
    assert_eq!(
        cli.sets,
        vec![
            ("HOMEBREW_NO_ANALYTICS".to_string(), "1".to_string()),
            ("HOMEBREW_TEMP".to_string(), "/t".to_string())
        ]
    );
    assert_eq!(cli.unsets, vec!["HOMEBREW_CACHE".to_string(), "HOMEBREW_LOGS".to_string()]);
    assert_eq!(cli.profile.as_deref(), Some("/a"));
    assert_eq!(cli.import_preset.as_deref(), Some("/i.toml"));
    assert_eq!(cli.export_preset.as_deref(), Some("/e.toml"));
    assert!(cli.dry_run && cli.json && !cli.apply && !cli.list);
    assert!(cli.is_batch());
    let cli = run(&["--profile=/b", "--list", "--apply"]);
    assert_eq!(cli.profile.as_deref(), Some("/b"));
    assert!(cli.list && cli.apply);
    assert!(!run(&[]).is_batch());
}

#[test]
fn parse_args_help_version_and_errors() {
    assert!(matches!(parse_args(&args(&["-h"])), ArgAction::ShowHelp));
    assert!(matches!(parse_args(&args(&["--apply", "--help", "--bogus"])), ArgAction::ShowHelp));
    assert!(matches!(parse_args(&args(&["-V"])), ArgAction::ShowVersion));
    assert_eq!(fail(&["--profile"]), "--profile requires a path argument");
    assert_eq!(fail(&["--set"]), "--set requires VAR=VALUE");
    assert_eq!(fail(&["--set", "novalue"]), "--set expects VAR=VALUE, got 'novalue'");
    assert_eq!(fail(&["--set==x"]), "--set expects VAR=VALUE, got '=x'");
    assert_eq!(fail(&["--unset"]), "--unset requires a variable name");
    assert_eq!(fail(&["--import-preset"]), "--import-preset requires a path");
    assert_eq!(fail(&["--export-preset"]), "--export-preset requires a path");
    assert_eq!(fail(&["--frob"]), "unknown argument '--frob'. Try --help.");
}
