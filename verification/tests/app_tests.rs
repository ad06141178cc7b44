use homebrewconfig::app::{App, Mode, Setting, SettingKind};

fn setting(kind: SettingKind) -> Setting {
    Setting {
        name: "Test",
        env_var: "HOMEBREW_TEST",
        description: "test",
        kind,
        bool_val: false,
        str_val: String::new(),
        num_val: None,
        category: "Test",
        modified: true,
        default_hint: "",
        is_path: false,
    }
}

#[test]
fn inverted_bool_is_on_when_var_unset() {
    let mut s = setting(SettingKind::Bool { inverted: true });
    s.apply_env_value(None);
    assert!(s.bool_val);
    s.apply_env_value(Some("1".to_string()));
    assert!(!s.bool_val);
}

#[test]
fn non_inverted_bool_is_on_when_var_set() {
    let mut s = setting(SettingKind::Bool { inverted: false });
    s.apply_env_value(None);
    assert!(!s.bool_val);
    // Even an empty string means the variable is present.
    s.apply_env_value(Some(String::new()));
    assert!(s.bool_val);
}

#[test]
fn str_reads_value_or_defaults_to_empty() {
    let mut s = setting(SettingKind::Str);
    s.apply_env_value(None);
    assert_eq!(s.str_val, "");
    s.apply_env_value(Some("/tmp/cache".to_string()));
    assert_eq!(s.str_val, "/tmp/cache");
}

#[test]
fn num_parses_trimmed_value_and_rejects_garbage() {
    let mut s = setting(SettingKind::Num);
    s.apply_env_value(Some("  30 ".to_string()));
    assert_eq!(s.num_val, Some(30));
    s.apply_env_value(Some("abc".to_string()));
    assert_eq!(s.num_val, None);
    s.apply_env_value(None);
    assert_eq!(s.num_val, None);
}

#[test]
fn apply_env_value_clears_modified_flag() {
    let mut s = setting(SettingKind::Str);
    assert!(s.modified);
    s.apply_env_value(None);
    assert!(!s.modified);
}

#[test]
fn num_parsing_follows_u32_rules() {
    let mut s = setting(SettingKind::Num);
    s.apply_env_value(Some("+7".to_string()));
    assert_eq!(s.num_val, Some(7));
    s.apply_env_value(Some("007".to_string()));
    assert_eq!(s.num_val, Some(7));
    s.apply_env_value(Some("4294967295".to_string()));
    assert_eq!(s.num_val, Some(4294967295));
    s.apply_env_value(Some("4294967296".to_string()));
    assert_eq!(s.num_val, None);
    s.apply_env_value(Some("-1".to_string()));
    assert_eq!(s.num_val, None);
    s.apply_env_value(Some("+".to_string()));
    assert_eq!(s.num_val, None);
    s.apply_env_value(Some("\t12\u{3000}".to_string()));
    assert_eq!(s.num_val, Some(12));
}

#[test]
fn value_display_by_kind() {
    let mut b = setting(SettingKind::Bool { inverted: true });
    b.bool_val = true;
    assert_eq!(b.value_display(), "ON");
    b.bool_val = false;
    assert_eq!(b.value_display(), "OFF");
    assert!(!b.is_feature_on());
    let mut s = setting(SettingKind::Str);
    assert_eq!(s.value_display(), "(default)");
    s.str_val = "vim".to_string();
    assert_eq!(s.value_display(), "vim");
    let mut n = setting(SettingKind::Num);
    assert_eq!(n.value_display(), "(default)");
    n.num_val = Some(120);
    assert_eq!(n.value_display(), "120");
    n.num_val = Some(0);
    assert_eq!(n.value_display(), "0");
}

#[test]
fn exported_raw_reads_back_to_the_same_value() {
    let mut n = setting(SettingKind::Num);
    n.num_val = Some(4096);
    let raw = n.exported_raw();
    assert_eq!(raw.as_deref(), Some("4096"));
    let mut back = setting(SettingKind::Num);
    back.apply_env_value(raw);
    assert_eq!(back.num_val, Some(4096));

    let mut b = setting(SettingKind::Bool { inverted: true });
    b.bool_val = false;
    let raw = b.exported_raw();
    assert_eq!(raw.as_deref(), Some("1"));
    let mut back = setting(SettingKind::Bool { inverted: true });
    back.bool_val = true;
    back.apply_env_value(raw);
    assert!(!back.bool_val);

    let mut s = setting(SettingKind::Str);
    assert_eq!(s.exported_raw(), None);
    s.str_val = "x y".to_string();
    assert_eq!(s.exported_raw().as_deref(), Some("x y"));
}

fn fresh_app() -> App {
    App::new(&Vec::new(), "/home/u/.zprofile".to_string())
}

#[test]
fn new_app_reads_the_catalogue_from_the_environment() {
    let mut env = vec![None; 22];
    env[0] = Some("1".to_string()); // HOMEBREW_NO_ANALYTICS set: analytics off
    env[5] = Some(" 30".to_string()); // cleanup age
    env[11] = Some("/tmp/cache".to_string());
    let app = App::new(&env, "/p".to_string());
    assert_eq!(app.settings.len(), 22);
    assert_eq!(app.settings[0].env_var, "HOMEBREW_NO_ANALYTICS");
    assert!(!app.settings[0].bool_val);
    assert!(app.settings[1].bool_val);
    assert_eq!(app.settings[5].num_val, Some(30));
    assert_eq!(app.settings[11].str_val, "/tmp/cache");
    assert_eq!(app.settings[21].env_var, "HOMEBREW_GITHUB_API_TOKEN");
    assert_eq!(app.selected, 0);
    assert_eq!(app.list_state, Some(1));
    assert_eq!(app.mode, Mode::Normal);
    assert!(!app.has_unsaved_changes());
    assert_eq!(app.shell_profile, "/p");
}

#[test]
fn list_index_counts_headers_and_blank_rows() {
    let settings = App::build_settings();
    let all: Vec<usize> = (0..settings.len()).collect();
    // Privacy header, Analytics, Env Hints, blank, Updates header, Auto Update...
    assert_eq!(App::compute_list_index(&settings, &all, 0), 1);
    assert_eq!(App::compute_list_index(&settings, &all, 1), 2);
    assert_eq!(App::compute_list_index(&settings, &all, 2), 5);
    assert_eq!(App::compute_list_index(&settings, &all, 5), 8);
    assert_eq!(App::compute_list_index(&settings, &all, 6), 11);
    // Past the end: the last row.
    let last = App::compute_list_index(&settings, &all, 21);
    assert_eq!(App::compute_list_index(&settings, &all, 99), last);
    assert_eq!(App::compute_list_index(&[], &[], 0), 0);
}

#[test]
fn list_index_counts_only_listed_settings() {
    let settings = App::build_settings();
    // Cache, Cellar (Directories) then Editor (Tools).
    let listed = vec![11, 12, 15];
    assert_eq!(App::compute_list_index(&settings, &listed, 0), 1);
    assert_eq!(App::compute_list_index(&settings, &listed, 1), 2);
    assert_eq!(App::compute_list_index(&settings, &listed, 2), 5);
}

#[test]
fn navigation_wraps_and_round_trips() {
    let mut app = fresh_app();
    app.select_prev();
    assert_eq!(app.selected, 21);
    app.select_next();
    assert_eq!(app.selected, 0);
    app.select_next();
    assert_eq!(app.selected, 1);
    assert_eq!(app.list_state, Some(2));
    app.select_prev();
    assert_eq!(app.selected, 0);
}

#[test]
fn toggle_flips_booleans_only() {
    let mut app = fresh_app();
    let before = app.settings[0].bool_val;
    app.toggle_current();
    assert_eq!(app.settings[0].bool_val, !before);
    assert!(app.settings[0].modified);
    assert!(app.has_unsaved_changes());
    app.toggle_current();
    assert_eq!(app.settings[0].bool_val, before);
    app.selected = 5; // a number setting
    app.toggle_current();
    assert!(!app.settings[5].modified);
}

#[test]
fn editing_a_number_stores_the_parsed_value() {
    let mut app = fresh_app();
    app.selected = 5;
    app.start_editing();
    assert_eq!(app.mode, Mode::Editing);
    assert_eq!(app.input, "");
    app.input = " 45 ".to_string();
    app.confirm_edit();
    assert_eq!(app.settings[5].num_val, Some(45));
    assert!(app.settings[5].modified);
    assert_eq!(app.mode, Mode::Normal);
    // Re-editing without changes keeps the value.
    app.settings[5].modified = false;
    app.start_editing();
    assert_eq!(app.input, "45");
    assert_eq!(app.cursor_pos, 2);
    app.confirm_edit();
    assert_eq!(app.settings[5].num_val, Some(45));
    assert!(!app.settings[5].modified);
}

#[test]
fn invalid_number_keeps_the_editor_open() {
    let mut app = fresh_app();
    app.selected = 5;
    app.start_editing();
    app.input = "12x".to_string();
    app.confirm_edit();
    assert_eq!(app.mode, Mode::Editing);
    assert_eq!(app.message, Some(("Invalid number".to_string(), true)));
    assert_eq!(app.settings[5].num_val, None);
}

#[test]
fn editing_a_string_trims_it() {
    let mut app = fresh_app();
    app.selected = 15; // Editor
    app.start_editing();
    app.input = "  nano ".to_string();
    app.confirm_edit();
    assert_eq!(app.settings[15].str_val, "nano");
    assert!(app.settings[15].modified);
    app.start_editing();
    app.cancel_edit();
    assert_eq!(app.input, "");
    assert_eq!(app.cursor_pos, 0);
    assert_eq!(app.mode, Mode::Normal);
}

#[test]
fn editing_a_boolean_does_nothing() {
    let mut app = fresh_app();
    app.start_editing();
    assert_eq!(app.mode, Mode::Normal);
}

#[test]
fn reset_reads_the_environment_again() {
    let mut app = fresh_app();
    app.toggle_current();
    let mut env = vec![None; 22];
    env[16] = Some("5".to_string());
    app.reset(&env);
    assert!(!app.has_unsaved_changes());
    assert!(app.settings[0].bool_val);
    assert_eq!(app.settings[16].num_val, Some(5));
    assert_eq!(
        app.message,
        Some(("Reset to current environment".to_string(), false))
    );
}

#[test]
fn set_var_applies_by_variable_and_rejects_unknown() {
    let mut app = fresh_app();
    app.set_var("HOMEBREW_CLEANUP_MAX_AGE_DAYS", Some("30".to_string()))
        .unwrap();
    assert_eq!(app.settings[5].num_val, Some(30));
    assert!(app.settings[5].modified);
    app.set_var("HOMEBREW_NO_ANALYTICS", Some("1".to_string()))
        .unwrap();
    assert!(!app.settings[0].bool_val);
    app.set_var("HOMEBREW_NO_ANALYTICS", None).unwrap();
    assert!(app.settings[0].bool_val);
    let err = app.set_var("HOMEBREW_NOPE", None).unwrap_err();
    assert_eq!(err, "unknown variable: HOMEBREW_NOPE");
}

#[test]
fn profile_candidates_follow_the_shell() {
    assert_eq!(
        App::profile_candidates("/home/u", "/bin/zsh"),
        vec!["/home/u/.zshrc".to_string(), "/home/u/.zprofile".to_string()]
    );
    assert_eq!(
        App::profile_candidates("/home/u/", "/usr/bin/fish"),
        vec!["/home/u/.config/fish/config.fish".to_string()]
    );
    assert_eq!(
        App::profile_candidates("/home/u", "/bin/bash"),
        vec![
            "/home/u/.bashrc".to_string(),
            "/home/u/.bash_profile".to_string(),
            "/home/u/.profile".to_string()
        ]
    );
    // An unknown or missing shell falls back to bash's files.
    assert_eq!(App::profile_candidates("/home/u", "").len(), 3);
    assert_eq!(App::profile_candidates("", "zsh")[0], ".zshrc");
}
