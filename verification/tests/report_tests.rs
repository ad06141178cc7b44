use homebrewconfig::app::App;
use homebrewconfig::brew::parse_brew_env;
use homebrewconfig::cli::Cli;
use homebrewconfig::config::{backup_path, generate_block, BLOCK_END};
use homebrewconfig::preset::preset_entries;
use homebrewconfig::report::{detail_lines, report_entry, DetailLine, ReportValue};

fn fresh_app() -> App {
    App::new(&Vec::new(), "/home/u/.zshrc".to_string())
}

#[test]
fn report_types_values_by_kind() {
    let mut app = fresh_app();
    app.set_var("HOMEBREW_CLEANUP_MAX_AGE_DAYS", Some("30".to_string()))
        .unwrap();
    assert_eq!(report_entry(&app.settings[5]), ("number", ReportValue::Number(Some(30))));
    assert_eq!(report_entry(&app.settings[16]), ("number", ReportValue::Number(None)));
    assert_eq!(report_entry(&app.settings[0]), ("bool", ReportValue::Bool(true)));
    assert_eq!(
        report_entry(&app.settings[15]),
        ("string", ReportValue::Text(String::new()))
    );
}

#[test]
fn detail_lines_of_a_directory_setting() {
    let mut app = fresh_app();
    app.set_var("HOMEBREW_CACHE", Some("/tmp/c".to_string())).unwrap();
    let lines = detail_lines(&app.settings[11], |p: &String| p.as_str() == "/tmp/c");
    assert_eq!(lines.len(), 11);
    assert!(matches!(lines[0], DetailLine::Name("Cache")));
    assert!(matches!(lines[5], DetailLine::EnvVar("HOMEBREW_CACHE")));
    assert!(matches!(&lines[7], DetailLine::Value(v) if v == "/tmp/c"));
    assert!(matches!(lines[8], DetailLine::Path(true)));
    assert!(matches!(lines[10], DetailLine::Modified));
}

#[test]
fn detail_lines_of_a_flag_and_a_number() {
    let app = fresh_app();
    let lines = detail_lines(&app.settings[0], |_p: &String| true);
    assert_eq!(lines.len(), 8);
    assert!(matches!(lines[7], DetailLine::Status(true)));
    let lines = detail_lines(&app.settings[5], |_p: &String| true);
    assert_eq!(lines.len(), 9);
    assert!(matches!(&lines[7], DetailLine::Value(v) if v == "(default)"));
    assert!(matches!(lines[8], DetailLine::Default("120")));
}

#[test]
fn dry_run_never_writes() {
    let mut cli = Cli::default();
    assert!(!cli.writes_profile());
    cli.apply = true;
    assert!(cli.writes_profile());
    cli.dry_run = true;
    assert!(!cli.writes_profile());
}

#[test]
fn backup_appends_bak_to_the_whole_path() {
    assert_eq!(
        backup_path("/home/u/.config/fish/config.fish"),
        "/home/u/.config/fish/config.fish.bak"
    );
    assert_eq!(backup_path("/home/u/.zshrc"), "/home/u/.zshrc.bak");
}

#[test]
fn brew_outputs_joined_by_a_newline_parse_to_both() {
    let a = "export HOMEBREW_CELLAR=\"/c\"\nnoise";
    let b = "HOMEBREW_TEMP='/t'\nexport PATH=/x";
    let joined = parse_brew_env(&format!("{}\n{}", a, b));
    let mut both = parse_brew_env(a);
    both.extend(parse_brew_env(b));
    assert_eq!(joined, both);
    assert_eq!(joined.len(), 2);
}

#[test]
fn preset_entries_omit_defaults_and_include_changes() {
    let mut app = fresh_app();
    app.set_var("HOMEBREW_CLEANUP_MAX_AGE_DAYS", Some("30".to_string()))
        .unwrap();
    assert_eq!(
        preset_entries(&app),
        vec![("HOMEBREW_CLEANUP_MAX_AGE_DAYS".to_string(), "30".to_string())]
    );
}

#[test]
fn block_ends_at_its_own_end_marker() {
    let mut app = fresh_app();
    app.set_var("HOMEBREW_EDITOR", Some("vim".to_string())).unwrap();
    let block = generate_block(&app.settings);
    assert_eq!(block.find(BLOCK_END), Some(block.len() - BLOCK_END.len()));
}
