//! Front-end decisions: palette, key remaps, plain text, and file names.

use tyrannus::commands::{
    apply_move_with_selection, document_to_plain_text, filtered_palette_items,
    finalize_new_document_basename, is_valid_title_name, key_opens_help, lookup_remap_action,
    overlay_mode_name, parse_key_binding, parse_runtime_keymap, plain_text_to_document,
    remap_action_from_name, AppCommand, KeyBinding, KeyName, OverlayMode, RemapAction, UiState,
};
use tyrannus::config::AppConfig;
use tyrannus::{
    cursor_to_gap_index, layout_document, reduce_edit, CursorMove, Document, EditOp, EditorState,
    LayoutConfig, Selection,
};

#[test]
fn command_palette_filter_matches_case_insensitively() {
    let filtered = filtered_palette_items("recent");
    assert!(filtered.iter().any(|(name, _)| *name == "Recent Documents"));
}

#[test]
fn palette_filter_keeps_order_and_empty_query_keeps_all() {
    assert_eq!(filtered_palette_items("").len(), 6);
    let names: Vec<&str> = filtered_palette_items("DOC").iter().map(|(n, _)| *n).collect();
    assert_eq!(names, vec!["New Document", "Recent Documents"]);
    assert!(filtered_palette_items("zzz").is_empty());
}

#[test]
fn finalize_new_document_basename_appends_md_when_no_extension() {
    assert_eq!(finalize_new_document_basename("story").unwrap(), "story.md");
    assert_eq!(finalize_new_document_basename("  note  ").unwrap(), "note.md");
}

#[test]
fn finalize_new_document_basename_rejects_paths_and_bad_extensions() {
    assert!(finalize_new_document_basename("a/b").is_err());
    assert!(finalize_new_document_basename("..").is_err());
    let pdf = finalize_new_document_basename("doc.pdf").expect_err("pdf rejected");
    assert!(pdf.contains("not allowed"), "unexpected message: {pdf}");
}

#[test]
fn finalize_new_document_accepts_whitelisted_extensions() {
    assert_eq!(finalize_new_document_basename("cfg.TOML").unwrap(), "cfg.TOML");
    assert_eq!(finalize_new_document_basename("a.txt").unwrap(), "a.txt");
}

#[test]
fn finalize_new_document_edge_names() {
    assert_eq!(
        finalize_new_document_basename("   ").unwrap_err(),
        "Filename cannot be empty."
    );
    assert_eq!(finalize_new_document_basename(".notes").unwrap(), ".notes.md");
    assert_eq!(
        finalize_new_document_basename("a.").unwrap_err(),
        "Invalid extension."
    );
    assert_eq!(
        finalize_new_document_basename("x.pdf").unwrap_err(),
        "Extension .pdf not allowed \u{2014} use .md, .txt, or .toml."
    );
    let long = "a".repeat(257);
    assert_eq!(
        finalize_new_document_basename(&long).unwrap_err(),
        "Filename is too long (max 256 characters)."
    );
    assert_eq!(
        finalize_new_document_basename("a\\b").unwrap_err(),
        "Use a basename only, not a path."
    );
}

#[test]
fn ui_state_defaults_to_start_menu() {
    let ui = UiState::default();
    assert_eq!(ui.overlay, OverlayMode::Menu);
    assert_eq!(ui.menu_selected, 0);
}

#[test]
fn overlay_names_for_status_line() {
    assert_eq!(overlay_mode_name(OverlayMode::NoOverlay), "editor");
    assert_eq!(overlay_mode_name(OverlayMode::NewDocumentFilename), "new-document-filename");
    assert_eq!(overlay_mode_name(OverlayMode::Configuration), "config");
}

#[test]
fn parse_key_binding_supports_ctrl_combo() {
    let binding = parse_key_binding("ctrl+q").expect("binding parses");
    assert_eq!(binding.code, KeyName::Char('q'));
    assert!(binding.ctrl);
}

#[test]
fn parse_key_binding_parses_shift_alt_and_specials() {
    let b1 = parse_key_binding("shift+up").expect("shift+up");
    assert_eq!(b1.code, KeyName::Up);
    assert!(b1.shift);
    let b2 = parse_key_binding("alt+enter").expect("alt+enter");
    assert_eq!(b2.code, KeyName::Enter);
    assert!(b2.alt);
    let b3 = parse_key_binding("ctrl+left").expect("left");
    assert_eq!(b3.code, KeyName::Left);
    assert!(b3.ctrl);
}

#[test]
fn parse_key_binding_rejects_empty_code() {
    let err = parse_key_binding("ctrl+").expect_err("missing key");
    assert!(err.contains("missing key code") || err.contains("missing"));
}

#[test]
fn parse_key_binding_rejects_invalid_token() {
    let err = parse_key_binding("nope+zz").expect_err("invalid");
    assert!(err.contains("invalid key token") || err.contains("invalid"));
    assert_eq!(err, "invalid key token `nope` in key binding `nope+zz`");
}

#[test]
fn parse_key_binding_trims_and_folds_case() {
    assert_eq!(
        parse_key_binding(" Ctrl + Shift + SPACE "),
        Ok(KeyBinding { code: KeyName::Char(' '), ctrl: true, shift: true, alt: false })
    );
    assert_eq!(
        parse_key_binding("f2+x"),
        Ok(KeyBinding { code: KeyName::Char('x'), ctrl: false, shift: false, alt: false })
    );
    assert!(parse_key_binding("").is_err());
}

fn config_with(bindings: Vec<(&str, &str)>) -> AppConfig {
    let mut app = AppConfig::with_home(None);
    app.keymap.bindings = bindings
        .into_iter()
        .map(|(k, v)| (k.to_string(), v.to_string()))
        .collect();
    app
}

#[test]
fn runtime_keymap_rejects_duplicate_bindings() {
    let app = config_with(vec![("open_menu", "ctrl+q"), ("quit", "ctrl+q")]);
    let err = parse_runtime_keymap(&app).expect_err("must reject duplicates");
    assert!(err.contains("duplicate key binding"));
}

#[test]
fn runtime_keymap_parses_valid_bindings() {
    let app = config_with(vec![("open_palette", "ctrl+shift+space"), ("quit", "alt+esc")]);
    let map = parse_runtime_keymap(&app).expect("valid keymap");
    let quit = map
        .bindings
        .iter()
        .find(|(k, _)| k.code == KeyName::Esc && k.alt);
    assert!(quit.is_some());
    let key = KeyBinding { code: KeyName::Esc, ctrl: false, shift: false, alt: true };
    assert_eq!(lookup_remap_action(&map, key), Some(RemapAction::Quit));
    let other = KeyBinding { code: KeyName::Esc, ctrl: false, shift: false, alt: false };
    assert_eq!(lookup_remap_action(&map, other), None);
}

#[test]
fn runtime_keymap_rejects_unknown_action() {
    let app = config_with(vec![("not_a_valid_action_name", "f1")]);
    let err = parse_runtime_keymap(&app).expect_err("unknown");
    assert!(err.contains("unknown keymap action"));
}

#[test]
fn remap_names_and_help_keys() {
    assert_eq!(
        remap_action_from_name("document_browser"),
        Some(RemapAction::Command(AppCommand::WritingFolder))
    );
    assert_eq!(remap_action_from_name("Quit"), None);
    let f1 = KeyBinding { code: KeyName::F(1), ctrl: false, shift: false, alt: false };
    let ctrl_h = KeyBinding { code: KeyName::Char('h'), ctrl: true, shift: false, alt: false };
    let h = KeyBinding { code: KeyName::Char('h'), ctrl: false, shift: false, alt: false };
    assert!(key_opens_help(f1));
    assert!(key_opens_help(ctrl_h));
    assert!(!key_opens_help(h));
}

#[test]
fn title_names_refuse_paths() {
    assert!(is_valid_title_name("ANSI-Shadow"));
    assert!(!is_valid_title_name(""));
    assert!(!is_valid_title_name(".."));
    assert!(!is_valid_title_name("a/b"));
    assert!(!is_valid_title_name("a\\b"));
}

#[test]
fn plain_text_to_document_and_back_roundtrips() {
    let a = "hello\n\nworld\n";
    let doc = plain_text_to_document(a);
    let back = document_to_plain_text(&doc);
    assert_eq!(back, a);
    let empty = document_to_plain_text(&plain_text_to_document(""));
    assert_eq!(empty, "");
}

#[test]
fn plain_text_trailing_newline_makes_empty_final_block() {
    let t = "one\ntwo\n";
    let doc = plain_text_to_document(t);
    assert_eq!(doc.blocks.len(), 3);
}

#[test]
fn move_with_selection_extends_from_old_caret() {
    let mut doc = Document::new();
    let mut st = EditorState::default();
    for ch in "abc".chars() {
        assert!(reduce_edit(&mut doc, &mut st, EditOp::InsertChar(ch)));
    }
    let laid = layout_document(&doc, 40, &LayoutConfig::default());
    apply_move_with_selection(&doc, &laid, &mut st, CursorMove::Left, true);
    assert_eq!(st.selection, Some(Selection { anchor: 3, head: 2 }));
    apply_move_with_selection(&doc, &laid, &mut st, CursorMove::Left, true);
    assert_eq!(st.selection, Some(Selection { anchor: 3, head: 1 }));
    apply_move_with_selection(&doc, &laid, &mut st, CursorMove::Right, false);
    assert_eq!(st.selection, None);
    assert_eq!(cursor_to_gap_index(&doc, &st.cursor), Some(2));
}
