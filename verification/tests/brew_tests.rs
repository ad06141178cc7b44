use homebrewconfig::brew::parse_brew_env;

#[test]
fn parses_exported_quoted_values() {
    let out = "export HOMEBREW_CELLAR=\"/opt/homebrew/Cellar\"\n\
               export HOMEBREW_PREFIX=\"/opt/homebrew\"\n";
    let pairs = parse_brew_env(out);
    assert_eq!(
        pairs,
        vec![
            (
                "HOMEBREW_CELLAR".to_string(),
                "/opt/homebrew/Cellar".to_string()
            ),
            ("HOMEBREW_PREFIX".to_string(), "/opt/homebrew".to_string()),
        ]
    );
}

#[test]
fn parses_bare_and_single_quoted_values() {
    let out = "HOMEBREW_NO_ANALYTICS=1\nHOMEBREW_TEMP='/tmp/brew'\n";
    let pairs = parse_brew_env(out);
    assert_eq!(
        pairs[0],
        ("HOMEBREW_NO_ANALYTICS".to_string(), "1".to_string())
    );
    assert_eq!(
        pairs[1],
        ("HOMEBREW_TEMP".to_string(), "/tmp/brew".to_string())
    );
}

#[test]
fn ignores_non_homebrew_and_garbage_lines() {
    let out = "export PATH=\"/usr/bin\"\nsome noise\nexport HOMEBREW_CACHE=\"/c\"\n";
    let pairs = parse_brew_env(out);
    assert_eq!(pairs.len(), 1);
    assert_eq!(pairs[0].0, "HOMEBREW_CACHE");
}

#[test]
fn empty_output_yields_no_pairs() {
    assert!(parse_brew_env("").is_empty());
}

#[test]
fn handles_crlf_whitespace_and_last_line_without_newline() {
    let out = "  export HOMEBREW_A = \" x \" \r\nHOMEBREW_B=a=b\nHOMEBREW_C=";
    let pairs = parse_brew_env(out);
    assert_eq!(
        pairs,
        vec![
            ("HOMEBREW_A ".to_string(), " x ".to_string()),
            ("HOMEBREW_B".to_string(), "a=b".to_string()),
            ("HOMEBREW_C".to_string(), String::new()),
        ]
    );
}
