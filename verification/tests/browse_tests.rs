use homebrewconfig::app::{pick_index, pick_profile, App, Mode};
use homebrewconfig::appconfig::AppConfig;
use homebrewconfig::keys::{handle_filter, handle_normal, KeyCode, KeyInput, NormalAction};
use homebrewconfig::theme::{resolve_theme, themes};
use homebrewconfig::ui::list_items;
use homebrewconfig::ui::ListRow;

fn fresh_app() -> App {
    App::new(&Vec::new(), "/home/u/.zshrc".to_string())
}

fn key(code: KeyCode) -> KeyInput {
    KeyInput { code, ctrl: false }
}

fn type_filter(app: &mut App, text: &str) {
    for c in text.chars() {
        app.filter_push(c);
    }
}

// ---- defaults and directory checks ----

#[test]
fn catalogue_carries_defaults_and_path_flags() {
    let settings = App::build_settings();
    assert_eq!(settings[5].default_hint, "120");
    assert_eq!(settings[10].default_hint, "🍺");
    assert_eq!(settings[15].default_hint, "$EDITOR");
    assert_eq!(settings[16].default_hint, "3");
    assert_eq!(settings[0].default_hint, "");
    let paths: Vec<&str> = settings
        .iter()
        .filter(|s| s.is_path)
        .map(|s| s.env_var)
        .collect();
    assert_eq!(
        paths,
        vec!["HOMEBREW_CACHE", "HOMEBREW_CELLAR", "HOMEBREW_LOGS", "HOMEBREW_TEMP"]
    );
}

#[test]
fn builders_enrich_a_setting() {
    let s = App::build_settings().remove(0);
    let s = s.with_default("on").with_path_flag();
    assert_eq!(s.default_hint, "on");
    assert!(s.is_path);
}

#[test]
fn path_status_checks_only_directories_with_a_value() {
    let mut settings = App::build_settings();
    // Cache without a value: nothing to check.
    assert_eq!(settings[11].path_status(|_p: &String| true), None);
    settings[11].str_val = "/tmp/cache".to_string();
    assert_eq!(
        settings[11].path_status(|p: &String| p.as_str() == "/tmp/cache"),
        Some(true)
    );
    assert_eq!(settings[11].path_status(|_p: &String| false), Some(false));
    // The editor is not a directory.
    settings[15].str_val = "vim".to_string();
    assert_eq!(settings[15].path_status(|_p: &String| true), None);
}

// ---- filtering ----

#[test]
fn empty_filter_lists_everything() {
    let app = fresh_app();
    let all: Vec<usize> = (0..22).collect();
    assert_eq!(app.visible(), all);
}

#[test]
fn filter_matches_name_variable_category_and_description_ignoring_case() {
    let mut app = fresh_app();
    type_filter(&mut app, "cache");
    // Cache by name and variable; Cleanup Age by its description.
    assert_eq!(app.visible(), vec![5, 11]);
    app.clear_filter();
    type_filter(&mut app, "NETWORK");
    assert_eq!(app.visible(), vec![18, 19, 20, 21]);
    app.clear_filter();
    type_filter(&mut app, "homebrew_no_emoji");
    assert_eq!(app.visible(), vec![7]);
    app.clear_filter();
    type_filter(&mut app, "zzz");
    assert!(app.visible().is_empty());
}

#[test]
fn filter_moves_a_hidden_selection_to_the_first_match() {
    let mut app = fresh_app();
    app.start_filter();
    assert_eq!(app.mode, Mode::Filtering);
    type_filter(&mut app, "token");
    assert_eq!(app.filter, "token");
    assert_eq!(app.selected, 21);
    // Network header, then the token entry.
    assert_eq!(app.list_state, Some(1));
    app.confirm_filter();
    assert_eq!(app.mode, Mode::Normal);
    assert_eq!(app.filter, "token");
}

#[test]
fn filter_keeps_a_selection_that_still_matches() {
    let mut app = fresh_app();
    app.selected = 11;
    type_filter(&mut app, "dir");
    assert_eq!(app.selected, 11);
    // The directories, and Insecure Redirect ("re-dir-ect").
    assert_eq!(app.visible(), vec![11, 12, 13, 14, 17]);
}

#[test]
fn no_match_keeps_the_selection_and_highlights_nothing() {
    let mut app = fresh_app();
    type_filter(&mut app, "qqq");
    assert_eq!(app.selected, 0);
    assert_eq!(app.list_state, None);
    app.select_next();
    assert_eq!(app.selected, 0);
}

#[test]
fn backspace_and_clear_widen_the_filter() {
    let mut app = fresh_app();
    type_filter(&mut app, "tokenx");
    assert!(app.visible().is_empty());
    app.filter_backspace();
    assert_eq!(app.filter, "token");
    assert_eq!(app.visible(), vec![21]);
    app.clear_filter();
    assert_eq!(app.filter, "");
    assert_eq!(app.mode, Mode::Normal);
    assert_eq!(app.visible().len(), 22);
    // Backspace on an empty filter changes nothing.
    app.filter_backspace();
    assert_eq!(app.filter, "");
}

#[test]
fn navigation_walks_only_the_listed_settings() {
    let mut app = fresh_app();
    type_filter(&mut app, "remote");
    assert_eq!(app.visible(), vec![19, 20]);
    assert_eq!(app.selected, 19);
    app.select_next();
    assert_eq!(app.selected, 20);
    app.select_next();
    assert_eq!(app.selected, 19);
    app.select_prev();
    assert_eq!(app.selected, 20);
    assert_eq!(app.list_state, Some(2));
}

#[test]
fn filter_keys_edit_the_filter() {
    let mut app = fresh_app();
    assert_eq!(
        handle_normal(&mut app, key(KeyCode::Char('/'))),
        NormalAction::Continue
    );
    assert_eq!(app.mode, Mode::Filtering);
    handle_filter(&mut app, key(KeyCode::Char('l')));
    handle_filter(&mut app, key(KeyCode::Char('o')));
    handle_filter(&mut app, key(KeyCode::Char('g')));
    assert_eq!(app.filter, "log");
    handle_filter(&mut app, key(KeyCode::Backspace));
    assert_eq!(app.filter, "lo");
    handle_filter(&mut app, key(KeyCode::Enter));
    assert_eq!(app.mode, Mode::Normal);
    assert_eq!(app.filter, "lo");
    app.mode = Mode::Filtering;
    handle_filter(&mut app, key(KeyCode::Esc));
    assert_eq!(app.mode, Mode::Normal);
    assert_eq!(app.filter, "");
}

#[test]
fn list_rows_follow_the_filter() {
    let mut app = fresh_app();
    type_filter(&mut app, "remote");
    let rows = list_items(&app.settings, &app.visible(), app.selected);
    assert_eq!(rows.len(), 3);
    assert!(matches!(&rows[0], ListRow::Header(h) if h == "  Network"));
    assert!(matches!(&rows[1], ListRow::Entry { index: 19, selected: true, .. }));
    assert!(matches!(&rows[2], ListRow::Entry { index: 20, selected: false, .. }));
}

// ---- the target profile ----

#[test]
fn pick_prefers_the_block_then_an_existing_file_then_the_first() {
    assert_eq!(pick_index(&[false, true, true], &[true, true, true]), 1);
    assert_eq!(pick_index(&[false, false, false], &[false, false, true]), 2);
    assert_eq!(pick_index(&[false, false], &[false, false]), 0);
}

#[test]
fn pick_profile_asks_the_predicates() {
    let cands = vec![
        "/h/.bashrc".to_string(),
        "/h/.bash_profile".to_string(),
        "/h/.profile".to_string(),
    ];
    let picked = pick_profile(
        &cands,
        |p: &String| p.as_str() == "/h/.profile",
        |_p: &String| true,
    );
    assert_eq!(picked, "/h/.profile");
    let picked = pick_profile(&cands, |_p: &String| false, |p: &String| p.ends_with("_profile"));
    assert_eq!(picked, "/h/.bash_profile");
    let picked = pick_profile(&cands, |_p: &String| false, |_p: &String| false);
    assert_eq!(picked, "/h/.bashrc");
}

#[test]
fn with_profile_uses_the_override_or_picks() {
    let cands = App::profile_candidates("/h", "/bin/zsh");
    let app = App::with_profile(
        &Vec::new(),
        Some("/x/profile".to_string()),
        cands.clone(),
        |_p: &String| false,
        |_p: &String| false,
        &AppConfig::default(),
    );
    assert_eq!(app.shell_profile, "/x/profile");
    assert_eq!(app.profile_candidates, cands);
    let app = App::with_profile(
        &Vec::new(),
        None,
        cands.clone(),
        |_p: &String| false,
        |p: &String| p.ends_with(".zprofile"),
        &AppConfig::default(),
    );
    assert_eq!(app.shell_profile, "/h/.zprofile");
    assert_eq!(app.theme_index, 0);
}

#[test]
fn cycling_the_profile_wraps_around_the_candidates() {
    let mut app = fresh_app();
    // No candidates: nothing to cycle.
    app.cycle_profile();
    assert_eq!(app.shell_profile, "/home/u/.zshrc");
    app.profile_candidates = App::profile_candidates("/home/u", "zsh");
    app.cycle_profile();
    assert_eq!(app.shell_profile, "/home/u/.zprofile");
    app.cycle_profile();
    assert_eq!(app.shell_profile, "/home/u/.zshrc");
    // A profile given on the command line is not a candidate: start over.
    app.shell_profile = "/elsewhere".to_string();
    assert_eq!(
        handle_normal(&mut app, key(KeyCode::Char('p'))),
        NormalAction::Continue
    );
    assert_eq!(app.shell_profile, "/home/u/.zshrc");
}

// ---- palettes ----

#[test]
fn palette_from_the_preferences() {
    let config = AppConfig {
        theme: Some("forest".to_string()),
    };
    let app = App::with_profile(
        &Vec::new(),
        Some("/p".to_string()),
        Vec::new(),
        |_p: &String| false,
        |_p: &String| false,
        &config,
    );
    assert_eq!(app.theme_index, 2);
    assert_eq!(app.theme().name, "forest");
    let unknown = AppConfig {
        theme: Some("plaid".to_string()),
    };
    let app = App::with_profile(
        &Vec::new(),
        Some("/p".to_string()),
        Vec::new(),
        |_p: &String| false,
        |_p: &String| false,
        &unknown,
    );
    assert_eq!(app.theme().name, "brew");
}

#[test]
fn cycling_the_palette_visits_all_then_wraps() {
    let mut app = fresh_app();
    let n = themes().len();
    let mut seen = Vec::new();
    for _ in 0..n {
        seen.push(app.theme().name);
        assert_eq!(
            handle_normal(&mut app, key(KeyCode::Char('t'))),
            NormalAction::ThemeChanged
        );
    }
    assert_eq!(seen, vec!["brew", "midnight", "forest", "rose", "mono"]);
    assert_eq!(app.theme().name, "brew");
    // An index past the palettes means the default one.
    app.theme_index = 99;
    assert_eq!(app.theme().name, "brew");
    app.cycle_theme();
    assert_eq!(app.theme().name, "midnight");
}

#[test]
fn resolve_theme_names_the_choices_on_error() {
    assert_eq!(resolve_theme("rose"), Ok(3));
    assert_eq!(
        resolve_theme("plaid"),
        Err("unknown theme 'plaid'. Available: brew, midnight, forest, rose, mono".to_string())
    );
}
