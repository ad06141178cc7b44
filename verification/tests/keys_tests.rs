use homebrewconfig::app::{App, Mode};
use homebrewconfig::keys::{
    char_to_byte, finish_apply, handle_confirm, handle_editing, handle_normal, KeyCode, KeyInput,
    NormalAction,
};
use homebrewconfig::preset::preset_entries;
use homebrewconfig::ui::{truncate, unsaved_count};

fn key(code: KeyCode) -> KeyInput {
    KeyInput { code, ctrl: false }
}

fn fresh_app() -> App {
    App::new(&Vec::new(), "/home/u/.bashrc".to_string())
}

#[test]
fn normal_mode_keys() {
    let mut app = fresh_app();
    assert_eq!(handle_normal(&mut app, key(KeyCode::Char('q'))), NormalAction::Quit);
    assert_eq!(
        handle_normal(&mut app, KeyInput { code: KeyCode::Char('c'), ctrl: true }),
        NormalAction::Quit
    );
    assert_eq!(handle_normal(&mut app, key(KeyCode::Char('c'))), NormalAction::Continue);
    assert_eq!(handle_normal(&mut app, key(KeyCode::Char('?'))), NormalAction::Continue);
    assert!(app.show_help);
    assert_eq!(handle_normal(&mut app, key(KeyCode::Esc)), NormalAction::Continue);
    assert!(!app.show_help);
    assert_eq!(handle_normal(&mut app, key(KeyCode::Esc)), NormalAction::Quit);
    handle_normal(&mut app, key(KeyCode::Char('j')));
    assert_eq!(app.selected, 1);
    handle_normal(&mut app, key(KeyCode::Up));
    assert_eq!(app.selected, 0);
    handle_normal(&mut app, key(KeyCode::Char(' ')));
    assert!(app.settings[0].modified);
    assert_eq!(handle_normal(&mut app, key(KeyCode::Char('r'))), NormalAction::Reset);
    handle_normal(&mut app, key(KeyCode::Char('a')));
    assert_eq!(app.mode, Mode::Confirming);
}

#[test]
fn editing_keys_move_the_cursor_and_edit_by_character() {
    let mut app = fresh_app();
    app.selected = 15; // Editor, a string
    handle_normal(&mut app, key(KeyCode::Enter));
    assert_eq!(app.mode, Mode::Editing);
    for c in "vé".chars() {
        handle_editing(&mut app, key(KeyCode::Char(c)));
    }
    assert_eq!(app.input, "vé");
    handle_editing(&mut app, key(KeyCode::Left));
    handle_editing(&mut app, key(KeyCode::Char('i')));
    assert_eq!(app.input, "vié");
    assert_eq!(app.cursor_pos, 2);
    handle_editing(&mut app, key(KeyCode::Delete));
    assert_eq!(app.input, "vi");
    handle_editing(&mut app, key(KeyCode::Home));
    handle_editing(&mut app, key(KeyCode::Backspace));
    assert_eq!(app.input, "vi");
    handle_editing(&mut app, key(KeyCode::End));
    assert_eq!(app.cursor_pos, 2);
    handle_editing(&mut app, key(KeyCode::Right));
    assert_eq!(app.cursor_pos, 2);
    handle_editing(&mut app, key(KeyCode::Backspace));
    assert_eq!(app.input, "v");
    handle_editing(&mut app, key(KeyCode::Enter));
    assert_eq!(app.settings[15].str_val, "v");
    assert_eq!(app.mode, Mode::Normal);
}

#[test]
fn number_editor_accepts_digits_only() {
    let mut app = fresh_app();
    app.selected = 5;
    app.start_editing();
    handle_editing(&mut app, key(KeyCode::Char('4')));
    handle_editing(&mut app, key(KeyCode::Char('x')));
    handle_editing(&mut app, key(KeyCode::Char('2')));
    assert_eq!(app.input, "42");
    handle_editing(&mut app, key(KeyCode::Esc));
    assert_eq!(app.mode, Mode::Normal);
    assert_eq!(app.settings[5].num_val, None);
}

#[test]
fn confirm_keys_and_apply_outcome() {
    let mut app = fresh_app();
    app.mode = Mode::Confirming;
    assert!(handle_confirm(&mut app, key(KeyCode::Char('y'))));
    assert!(handle_confirm(&mut app, key(KeyCode::Enter)));
    assert!(!handle_confirm(&mut app, key(KeyCode::Char('x'))));
    assert_eq!(app.mode, Mode::Confirming);
    assert!(!handle_confirm(&mut app, key(KeyCode::Char('n'))));
    assert_eq!(app.mode, Mode::Normal);
    assert_eq!(app.message, Some(("Apply cancelled".to_string(), false)));

    app.toggle_current();
    finish_apply(&mut app, Ok(()));
    assert!(!app.has_unsaved_changes());
    assert_eq!(
        app.message,
        Some(("Applied to /home/u/.bashrc".to_string(), false))
    );
    finish_apply(&mut app, Err("disk full".to_string()));
    assert_eq!(app.message, Some(("disk full".to_string(), true)));
}

#[test]
fn char_to_byte_counts_utf8_bytes() {
    assert_eq!(char_to_byte("aé€😀b", 0), 0);
    assert_eq!(char_to_byte("aé€😀b", 1), 1);
    assert_eq!(char_to_byte("aé€😀b", 2), 3);
    assert_eq!(char_to_byte("aé€😀b", 3), 6);
    assert_eq!(char_to_byte("aé€😀b", 4), 10);
    assert_eq!(char_to_byte("aé€😀b", 5), 11);
    assert_eq!(char_to_byte("aé€😀b", 9), 11);
}

#[test]
fn truncate_and_unsaved_count() {
    assert_eq!(truncate("short", 18), "short");
    assert_eq!(truncate("abcdef", 4), "abc…");
    assert_eq!(truncate("abcdef", 0), "…");
    assert_eq!(truncate("ééé", 3), "ééé");
    let mut app = fresh_app();
    assert_eq!(unsaved_count(&app.settings), 0);
    app.toggle_current();
    app.selected = 1;
    app.toggle_current();
    assert_eq!(unsaved_count(&app.settings), 2);
}

#[test]
fn preset_entries_hold_non_default_settings() {
    let mut app = fresh_app();
    assert!(preset_entries(&app).is_empty());
    app.set_var("HOMEBREW_CLEANUP_MAX_AGE_DAYS", Some("30".to_string()))
        .unwrap();
    app.set_var("HOMEBREW_NO_ANALYTICS", Some("1".to_string()))
        .unwrap();
    let entries = preset_entries(&app);
    assert_eq!(
        entries,
        vec![
            ("HOMEBREW_NO_ANALYTICS".to_string(), "1".to_string()),
            ("HOMEBREW_CLEANUP_MAX_AGE_DAYS".to_string(), "30".to_string()),
        ]
    );
    // Importing the entries into a fresh state reproduces the values.
    let mut other = fresh_app();
    for (k, v) in entries {
        other.set_var(&k, Some(v)).unwrap();
    }
    assert_eq!(other.settings[5].num_val, Some(30));
    assert!(!other.settings[0].bool_val);
}

#[test]
fn block_lines_and_preset_entries_agree() {
    let mut app = fresh_app();
    app.set_var("HOMEBREW_CURL_RETRIES", Some("7".to_string()))
        .unwrap();
    app.set_var("HOMEBREW_DEBUG", Some(String::new())).unwrap();
    let block = homebrewconfig::config::generate_block(&app.settings);
    for (var, raw) in preset_entries(&app) {
        assert!(block.contains(&format!("export {}={}", var, raw)));
    }
    assert_eq!(preset_entries(&app).len(), 2);
    assert_eq!(block.matches("export ").count(), 2);
}
