use homebrewconfig::app::{App, Setting, SettingKind};
use homebrewconfig::config::{
    escape_value, file_contains_block, generate_block, plan_apply, preview_block, replace_block,
    ProfileUpdate, BLOCK_END, BLOCK_START,
};

fn setting(kind: SettingKind, category: &'static str) -> Setting {
    Setting {
        name: "Test",
        env_var: "HOMEBREW_TEST",
        description: "test setting",
        kind,
        bool_val: false,
        str_val: String::new(),
        num_val: None,
        category,
        modified: false,
        default_hint: "",
        is_path: false,
    }
}

// ---- escape_value ----

#[test]
fn escape_value_leaves_plain_text() {
    assert_eq!(escape_value("hello"), "hello");
}

#[test]
fn escape_value_escapes_quotes_and_backslashes() {
    assert_eq!(escape_value(r#"a"b"#), r#"a\"b"#);
    assert_eq!(escape_value(r"a\b"), r"a\\b");
    // Backslashes are escaped before quotes, so a literal \" becomes \\\".
    assert_eq!(escape_value(r#"\""#), r#"\\\""#);
}

// ---- generate_block ----

#[test]
fn generate_block_omits_defaults() {
    // A non-inverted bool left off and an empty string both produce no export.
    let settings = vec![
        setting(SettingKind::Bool { inverted: false }, "Display"),
        setting(SettingKind::Str, "Network"),
    ];
    let block = generate_block(&settings);
    assert_eq!(block, format!("{}\n{}", BLOCK_START, BLOCK_END));
}

#[test]
fn generate_block_inverted_bool_exports_when_feature_off() {
    // inverted: feature ON (bool_val true) is the Homebrew default -> no export.
    let mut on = setting(SettingKind::Bool { inverted: true }, "Privacy");
    on.bool_val = true;
    assert_eq!(
        generate_block(std::slice::from_ref(&on)),
        format!("{}\n{}", BLOCK_START, BLOCK_END)
    );

    // Feature OFF -> the HOMEBREW_NO_* variable must be exported.
    let mut off = setting(SettingKind::Bool { inverted: true }, "Privacy");
    off.bool_val = false;
    assert!(generate_block(std::slice::from_ref(&off)).contains("export HOMEBREW_TEST=1"));
}

#[test]
fn generate_block_non_inverted_bool_exports_when_on() {
    let mut s = setting(SettingKind::Bool { inverted: false }, "Display");
    s.bool_val = true;
    assert!(generate_block(std::slice::from_ref(&s)).contains("export HOMEBREW_TEST=1"));
}

#[test]
fn generate_block_quotes_and_escapes_strings() {
    let mut s = setting(SettingKind::Str, "Network");
    s.str_val = r#"a"b"#.to_string();
    assert!(generate_block(std::slice::from_ref(&s)).contains(r#"export HOMEBREW_TEST="a\"b""#));
}

#[test]
fn generate_block_emits_numbers_unquoted() {
    let mut s = setting(SettingKind::Num, "Updates");
    s.num_val = Some(30);
    assert!(generate_block(std::slice::from_ref(&s)).contains("export HOMEBREW_TEST=30"));
}

#[test]
fn generate_block_writes_category_header_once() {
    let mut a = setting(SettingKind::Bool { inverted: false }, "Display");
    a.bool_val = true;
    let mut b = setting(SettingKind::Bool { inverted: false }, "Display");
    b.bool_val = true;
    b.name = "Test2";
    b.env_var = "HOMEBREW_TEST2";
    let block = generate_block(&[a, b]);
    assert_eq!(block.matches("# Display").count(), 1);
}

#[test]
fn generate_block_exact_layout() {
    let mut a = setting(SettingKind::Bool { inverted: true }, "Privacy");
    a.bool_val = false;
    a.env_var = "HOMEBREW_NO_ANALYTICS";
    let mut b = setting(SettingKind::Num, "Updates");
    b.num_val = Some(30);
    b.env_var = "HOMEBREW_CLEANUP_MAX_AGE_DAYS";
    let c = setting(SettingKind::Str, "Updates");
    let mut d = setting(SettingKind::Str, "Network");
    d.str_val = r"ghp_\x".to_string();
    d.env_var = "HOMEBREW_GITHUB_API_TOKEN";
    let block = generate_block(&[a, b, c, d]);
    assert_eq!(
        block,
        "# homebrewconfig BEGIN\n# Privacy\nexport HOMEBREW_NO_ANALYTICS=1\n# Updates\n\
         export HOMEBREW_CLEANUP_MAX_AGE_DAYS=30\n# Network\n\
         export HOMEBREW_GITHUB_API_TOKEN=\"ghp_\\\\x\"\n# homebrewconfig END"
    );
}

// ---- replace_block ----

#[test]
fn replace_block_appends_to_empty() {
    let block = format!("{}\n{}", BLOCK_START, BLOCK_END);
    let result = replace_block("", &block);
    assert_eq!(result, format!("{}\n", block));
}

#[test]
fn replace_block_appends_after_existing_content() {
    let block = format!("{}\n{}", BLOCK_START, BLOCK_END);
    let result = replace_block("export FOO=1\n", &block);
    assert_eq!(result, format!("export FOO=1\n\n{}\n", block));
}

#[test]
fn replace_block_replaces_existing_block_in_place() {
    let old = format!(
        "before\n{}\nexport OLD=1\n{}\nafter\n",
        BLOCK_START, BLOCK_END
    );
    let new_block = format!("{}\nexport NEW=1\n{}", BLOCK_START, BLOCK_END);
    let result = replace_block(&old, &new_block);
    assert!(result.contains("before"));
    assert!(result.contains("after"));
    assert!(result.contains("export NEW=1"));
    assert!(!result.contains("export OLD=1"));
    // Re-applying the same block must be idempotent.
    assert_eq!(replace_block(&result, &new_block), result);
}

#[test]
fn replace_block_preserves_surrounding_lines() {
    let old = format!("{}\nexport OLD=1\n{}\nkeep me\n", BLOCK_START, BLOCK_END);
    let new_block = format!("{}\n{}", BLOCK_START, BLOCK_END);
    let result = replace_block(&old, &new_block);
    assert!(result.contains("keep me"));
    assert!(!result.contains("export OLD=1"));
}

#[test]
fn replace_block_exact_results() {
    let block = format!("{}\nexport A=1\n{}", BLOCK_START, BLOCK_END);
    let old = format!("x\n\n{}\nold\n{}\n\ny\n", BLOCK_START, BLOCK_END);
    assert_eq!(replace_block(&old, &block), format!("x\n\n{}\n\ny\n", block));
    // Trailing newlines of existing content collapse into one blank line.
    assert_eq!(replace_block("a\n\n\n", &block), format!("a\n\n{}\n", block));
    // An end marker before the start marker is not a managed block.
    let broken = format!("{}\n{}\n", BLOCK_END, BLOCK_START);
    assert_eq!(
        replace_block(&broken, &block),
        format!("{}\n{}\n\n{}\n", BLOCK_END, BLOCK_START, block)
    );
}

#[test]
fn replace_block_twice_is_idempotent() {
    let block = format!("{}\nexport A=1\n{}", BLOCK_START, BLOCK_END);
    for existing in ["", "x", "x\n", "a\nb\n\n", "\n\n"] {
        let once = replace_block(existing, &block);
        assert_eq!(replace_block(&once, &block), once);
    }
}

#[test]
fn file_contains_block_detects_marker() {
    assert!(file_contains_block(Some("x\n# homebrewconfig BEGIN\n")));
    assert!(!file_contains_block(Some("export FOO=1\n")));
    assert!(!file_contains_block(None));
}

#[test]
fn plan_apply_writes_backs_up_and_then_settles() {
    let mut app = App::new(&Vec::new(), "/p".to_string());
    app.set_var("HOMEBREW_NO_ANALYTICS", Some("1".to_string()))
        .unwrap();
    let preview = preview_block(&app);
    assert_eq!(
        preview,
        "# homebrewconfig BEGIN\n# Privacy\nexport HOMEBREW_NO_ANALYTICS=1\n# homebrewconfig END"
    );
    let contents = match plan_apply(&app, "export PATH=/bin\n") {
        ProfileUpdate::Write { backup, contents } => {
            assert_eq!(backup.as_deref(), Some("export PATH=/bin\n"));
            contents
        }
        ProfileUpdate::Unchanged => panic!("expected a write"),
    };
    assert_eq!(contents, format!("export PATH=/bin\n\n{}\n", preview));
    assert!(matches!(plan_apply(&app, &contents), ProfileUpdate::Unchanged));
    match plan_apply(&app, "") {
        ProfileUpdate::Write { backup, .. } => assert!(backup.is_none()),
        ProfileUpdate::Unchanged => panic!("expected a write"),
    }
}

#[test]
fn applied_profile_is_found_to_hold_the_block() {
    let app = App::new(&Vec::new(), "/p".to_string());
    match plan_apply(&app, "export PATH=/usr/bin\n") {
        ProfileUpdate::Write { contents, .. } => {
            assert!(file_contains_block(Some(&contents)));
        }
        ProfileUpdate::Unchanged => panic!("a profile without the block must change"),
    }
    assert!(!file_contains_block(Some("export PATH=/usr/bin\n")));
}
