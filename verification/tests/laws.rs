//! Concrete cases of the laws that the library proves.

use tyrannus::commands::{KeyBinding, KeyName, OverlayMode, UiState};
use tyrannus::session::{handle_overlay_key, AppState};
use tyrannus::{
    cursor_to_gap_index, cursor_to_row_col, document_char_count, flatten_document_chars,
    gap_index_to_cursor, layout_document, reduce, reduce_edit, CursorMove, Document, EditOp,
    EditorState, LayoutConfig,
};

#[test]
fn gap_index_roundtrips_through_its_caret() {
    let mut doc = Document::new();
    let mut st = EditorState::default();
    for c in "ab\ncd".chars() {
        let op = if c == '\n' { EditOp::NewLine } else { EditOp::InsertChar(c) };
        assert!(reduce_edit(&mut doc, &mut st, op));
    }
    let n = document_char_count(&doc);
    let g = cursor_to_gap_index(&doc, &st.cursor).unwrap();
    assert!(g <= n);
    let c2 = gap_index_to_cursor(&doc, g).unwrap();
    assert!(cursor_to_gap_index(&doc, &c2).is_some());
    for g in 0..=n {
        let c = gap_index_to_cursor(&doc, g).unwrap();
        assert!(cursor_to_gap_index(&doc, &c).is_some());
    }
}

#[test]
fn every_char_caret_is_drawable_at_every_width() {
    let mut doc = Document::new();
    let mut st = EditorState::default();
    for c in "wide 日本 text".chars() {
        assert!(reduce_edit(&mut doc, &mut st, EditOp::InsertChar(c)));
    }
    let chars = flatten_document_chars(&doc);
    for w in [1u16, 2, 3, 5, 8, 80] {
        let laid = layout_document(&doc, w, &LayoutConfig::default());
        for (c, _) in &chars {
            assert!(cursor_to_row_col(&doc, &laid, c).is_some());
        }
        assert!(cursor_to_row_col(&doc, &laid, &st.cursor).is_some());
    }
}

#[test]
fn esc_closes_every_dialog() {
    let app = AppState::default();
    let esc = KeyBinding { code: KeyName::Esc, ctrl: false, shift: false, alt: false };
    for mode in [
        OverlayMode::Help,
        OverlayMode::CommandPalette,
        OverlayMode::RecentDocuments,
        OverlayMode::WritingFolder,
        OverlayMode::NewDocumentFilename,
        OverlayMode::Configuration,
    ] {
        let mut ui = UiState { overlay: mode, ..UiState::default() };
        assert_eq!(handle_overlay_key(esc, &mut ui, &app), None);
        assert_eq!(ui.overlay, OverlayMode::Menu);
    }
}

#[test]
fn help_key_toggles_help_in_dialogs() {
    let app = AppState::default();
    let f1 = KeyBinding { code: KeyName::F(1), ctrl: false, shift: false, alt: false };
    for mode in [
        OverlayMode::CommandPalette,
        OverlayMode::RecentDocuments,
        OverlayMode::WritingFolder,
        OverlayMode::NewDocumentFilename,
        OverlayMode::Configuration,
    ] {
        let mut ui = UiState { overlay: mode, ..UiState::default() };
        assert_eq!(handle_overlay_key(f1, &mut ui, &app), None);
        assert_eq!(ui.overlay, OverlayMode::Help);
        handle_overlay_key(f1, &mut ui, &app);
        assert_eq!(ui.overlay, OverlayMode::Menu);
    }
}

#[test]
fn backspace_undoes_a_typed_char() {
    let mut doc = Document::new();
    let mut st = EditorState::default();
    for c in "ab".chars() {
        assert!(reduce_edit(&mut doc, &mut st, EditOp::InsertChar(c)));
    }
    assert!(reduce(&mut doc, &mut st, EditOp::MoveCursor(CursorMove::Left), 40));
    let before = st.cursor.clone();
    let text_before: String = flatten_document_chars(&doc).into_iter().map(|(_, ch)| ch).collect();
    assert!(reduce_edit(&mut doc, &mut st, EditOp::InsertChar('é')));
    assert!(reduce_edit(&mut doc, &mut st, EditOp::Backspace));
    let text_after: String = flatten_document_chars(&doc).into_iter().map(|(_, ch)| ch).collect();
    assert_eq!(text_after, text_before);
    assert_eq!(st.cursor, before);
}
