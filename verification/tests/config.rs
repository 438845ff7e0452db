//! Configuration text, theme colors, and presets.

use std::path::PathBuf;

use tyrannus::config::{
    load_app_config_from_str, load_theme_from_str, normalize_color_name, parse_ansi_color_name,
    resolve_writing_folder_from_config_value, theme_color_in, writing_folder_choice, AnsiColor,
    CursorStyleConfig, FolderChoice, PathsConfig, Theme, ThemeError, ThemeRole,
};
use tyrannus::config::{app_config_from_document, ConfigValue};
use tyrannus::theme_presets::{
    known_presets, light, normalize_slug, resolve_preset, validate_bundled_presets,
};

#[test]
fn heading_can_be_empty_and_falls_back_to_accent() {
    let theme = Theme::default();
    assert_eq!(
        theme_color_in(&theme, ThemeRole::Heading1),
        theme_color_in(&theme, ThemeRole::Accent)
    );
}

#[test]
fn preset_then_override_precedence() {
    let raw = r#"
theme_preset = "dark"

[theme]
foreground = "yellow"
"#;
    let theme = load_theme_from_str(raw).expect("theme loads");
    assert_eq!(normalize_color_name(&theme.foreground), "yellow");
    assert_eq!(normalize_color_name(&theme.background), "black");
}

#[test]
fn unknown_theme_key_is_rejected() {
    let raw = r#"
[theme]
wat = "red"
"#;
    let err = load_theme_from_str(raw).expect_err("must fail");
    assert!(err.message().contains("unknown theme role"));
}

#[test]
fn invalid_required_color_is_rejected() {
    let raw = r#"
[theme]
foreground = "beige"
"#;
    let err = load_theme_from_str(raw).expect_err("must fail");
    assert!(err.message().contains("invalid ANSI color name"));
}

#[test]
fn app_config_parses_extended_sections() {
    let raw = r#"
theme_preset = "dark"

[spacing]
line_gap_lines = 1
paragraph_gap_lines = 2
code_margin = 2

[typography]
extra_word_spacing = 1
extra_letter_spacing = 1

[cursor]
style = "block"
blink = false

[editor]
tab_width = 2
hard_tabs = false
auto_wrap = true
show_invisibles = true

[ui]
status_details_default = true
start_menu_title = "ANSI-Shadow"

[keymap]
quit = "ctrl+x"
"#;
    let app = load_app_config_from_str(raw, None).expect("app config parses");
    assert_eq!(app.spacing.line_gap_lines, 1);
    assert_eq!(app.typography.extra_word_spacing, 1);
    assert_eq!(app.cursor.style, CursorStyleConfig::Block);
    assert_eq!(app.editor.tab_width, 2);
    assert!(app.ui.status_details_default);
    let quit = app
        .keymap
        .bindings
        .iter()
        .find(|(k, _)| k == "quit")
        .map(|(_, v)| v.clone());
    assert_eq!(quit, Some("ctrl+x".to_string()));
}

#[test]
fn app_config_rejects_invalid_cursor_style() {
    let raw = r#"
[cursor]
style = "bar"
"#;
    let err = load_app_config_from_str(raw, None).expect_err("must fail");
    assert!(err.message().contains("cursor.style"));
}

#[test]
fn app_config_rejects_out_of_range_spacing() {
    let raw = r#"
[spacing]
line_gap_lines = 100
"#;
    let err = load_app_config_from_str(raw, None).expect_err("must fail");
    assert!(err.message().contains("spacing.line_gap_lines"));
}

#[test]
fn app_config_rejects_empty_key_binding() {
    let raw = r#"
[keymap]
quit = ""
"#;
    let err = load_app_config_from_str(raw, None).expect_err("must fail");
    assert!(err.message().contains("keymap.quit"));
}

#[test]
fn resolve_writing_folder_absolute_is_unchanged() {
    assert_eq!(
        resolve_writing_folder_from_config_value(Some("/abs/writing"), Some("/home/writer")),
        PathBuf::from("/abs/writing")
    );
}

#[test]
fn app_config_paths_absolute_writing_folder() {
    let raw = r#"
[ui]
start_menu_title = "ANSI-Shadow"

[paths]
writing_folder = "/custom/writing"
"#;
    let app = load_app_config_from_str(raw, None).expect("parses");
    assert_eq!(app.paths.writing_folder, PathBuf::from("/custom/writing"));
}

#[test]
fn app_config_paths_relative_writing_folder() {
    let raw = r#"
[ui]
start_menu_title = "ANSI-Shadow"

[paths]
writing_folder = "notes/inbox"
"#;
    let app = load_app_config_from_str(raw, None).expect("parses");
    assert_eq!(app.paths.writing_folder, PathBuf::from("notes/inbox"));
}

#[test]
fn app_config_paths_empty_string_uses_default() {
    let raw = r#"
[ui]
start_menu_title = "ANSI-Shadow"

[paths]
writing_folder = "   "
"#;
    let home = Some("/home/writer");
    let app = load_app_config_from_str(raw, home).expect("parses");
    assert_eq!(app.paths.writing_folder, PathsConfig::with_home(home).writing_folder);
}

#[test]
fn app_config_paths_unknown_key_is_rejected() {
    let raw = r#"
[ui]
start_menu_title = "ANSI-Shadow"

[paths]
bogus = "/x"
"#;
    let err = load_app_config_from_str(raw, None).expect_err("must fail");
    assert!(err.message().contains("paths.bogus"));
}

#[test]
fn bundled_catalog_parses() {
    validate_bundled_presets().expect("catalog should be valid");
}

#[test]
fn slug_normalization_is_stable() {
    assert_eq!(normalize_slug(" Tokyo_Night "), "tokyo-night");
}

#[test]
fn unknown_preset_is_rejected() {
    let err = resolve_preset("does-not-exist").expect_err("must fail");
    assert!(err.message().contains("unknown value"));
}

#[test]
fn color_names_normalize_case_space_and_grey() {
    assert_eq!(normalize_color_name("  Dark_Grey "), "dark_gray");
    assert_eq!(parse_ansi_color_name("  Dark_Grey "), Some(AnsiColor::DarkGray));
    assert_eq!(parse_ansi_color_name("GREY"), Some(AnsiColor::Gray));
    assert_eq!(parse_ansi_color_name("beige"), None);
}

#[test]
fn unknown_color_falls_back_to_foreground_then_white() {
    let mut theme = Theme::default();
    theme.code = "beige".to_string();
    assert_eq!(theme_color_in(&theme, ThemeRole::Code), AnsiColor::White);
    theme.foreground = "red".to_string();
    assert_eq!(theme_color_in(&theme, ThemeRole::Code), AnsiColor::Red);
    theme.foreground = "nope".to_string();
    assert_eq!(theme_color_in(&theme, ThemeRole::Code), AnsiColor::White);
}

#[test]
fn light_preset_resolves_by_any_spelling() {
    let t = resolve_preset("  LIGHT ").expect("light");
    assert_eq!(t, light());
    assert_eq!(known_presets(), vec!["dark".to_string(), "light".to_string()]);
}

#[test]
fn slug_collapses_whitespace_runs() {
    assert_eq!(normalize_slug("Solarized \t Dark_mode"), "solarized-dark-mode");
    assert_eq!(normalize_slug("   "), "");
}

#[test]
fn invalid_toml_is_reported() {
    let err = load_theme_from_str("[theme").expect_err("must fail");
    assert!(matches!(err, ThemeError::InvalidToml(_)));
    assert!(err.message().starts_with("invalid TOML config: "));
}

#[test]
fn error_messages_spell_out_each_kind() {
    let raw = "[spacing]\ncode_margin = 13\n";
    let err = load_app_config_from_str(raw, None).expect_err("out of range");
    assert_eq!(
        err.message(),
        "invalid value for `spacing.code_margin`: 13 (expected 0..=12)"
    );
    let err = load_app_config_from_str("[editor]\nhard_tabs = 1\n", None).expect_err("type");
    assert_eq!(
        err.message(),
        "invalid type for `editor.hard_tabs` (expected boolean)"
    );
    let err = load_app_config_from_str("[cursor]\nstyle = \"bar\"\n", None).expect_err("enum");
    assert_eq!(
        err.message(),
        "invalid value for `cursor.style`: `bar` (expected one of: block, line, underline)"
    );
    let err = load_app_config_from_str("[ui]\nstart_menu_title = \"  \"\n", None).expect_err("empty");
    assert_eq!(err.message(), "theme role `ui.start_menu_title` cannot be empty");
    let err = load_app_config_from_str("theme = 3\n", None).expect_err("table");
    assert_eq!(err.message(), "invalid type for `theme` (expected table)");
    let err = load_app_config_from_str("theme_preset = \"nord\"\n", None).expect_err("preset");
    assert_eq!(
        err.message(),
        "theme_preset: unknown value \"nord\" (known: dark, light)"
    );
}

#[test]
fn keymap_keys_fold_case_and_stay_sorted() {
    let raw = "[keymap]\nQuit = \" Ctrl+Q \"\nopen_menu = \"ctrl+m\"\nquit = \"ctrl+x\"\n";
    let app = load_app_config_from_str(raw, None).expect("parses");
    let pairs: Vec<(String, String)> = app.keymap.bindings.clone();
    assert_eq!(
        pairs,
        vec![
            ("open_menu".to_string(), "ctrl+m".to_string()),
            ("quit".to_string(), "ctrl+x".to_string()),
        ]
    );
}

#[test]
fn writing_folder_choice_expands_tilde() {
    assert_eq!(writing_folder_choice(None), FolderChoice::Default);
    assert_eq!(writing_folder_choice(Some("  ")), FolderChoice::Default);
    assert_eq!(writing_folder_choice(Some("~")), FolderChoice::Home);
    assert_eq!(
        writing_folder_choice(Some(" ~/notes ")),
        FolderChoice::UnderHome("notes".to_string())
    );
    assert_eq!(
        resolve_writing_folder_from_config_value(Some("~/notes"), Some("/home/w")),
        PathBuf::from("/home/w/notes")
    );
}

#[test]
fn app_config_paths_tilde_writing_folder_under_home() {
    let raw = "[paths]\nwriting_folder = \" ~/Notes \"\n";
    let app = load_app_config_from_str(raw, Some("/home/writer")).expect("parses");
    assert_eq!(app.paths.writing_folder, PathBuf::from("/home/writer").join("Notes"));
}

#[test]
fn app_config_from_parsed_document_sets_the_writing_folder() {
    let parsed = ConfigValue::Table(vec![(
        "paths".to_string(),
        ConfigValue::Table(vec![("writing_folder".to_string(), ConfigValue::Str("~".to_string()))]),
    )]);
    let app = app_config_from_document(&parsed, Some("/home/writer")).expect("valid");
    assert_eq!(app.paths.writing_folder, PathBuf::from("/home/writer"));
    let none = ConfigValue::Table(vec![]);
    let app = app_config_from_document(&none, None).expect("valid");
    assert_eq!(app.paths.writing_folder, PathBuf::from("Writing"));
    assert!(app_config_from_document(&ConfigValue::Boolean(true), None).is_err());
}
