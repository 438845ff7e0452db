//! What the screen shows: cell styles, body rows, status line, dialogs.

use std::path::PathBuf;

use tyrannus::commands::{OverlayMode, UiState};
use tyrannus::config::{
    theme_color_in, AnsiColor, CursorConfig, CursorStyleConfig, EditorConfig, Theme, ThemeRole,
    TypographyConfig,
};
use tyrannus::render::{
    area_is_usable, body_inner_dims, body_inner_rect, body_lines, centered_rect,
    resolve_cell_style, resolve_start_menu_item_style, spaces_string, status_spans,
    trim_end_chars, trim_start_chars, wrap_modal_paragraph, Area, ScreenSpan,
};
use tyrannus::session::AppState;
use tyrannus::{layout_document, reduce_edit, Document, EditOp, EditorState, LayoutConfig, LayoutMemoryStats, Selection};

#[test]
fn cursor_style_wins_over_selection() {
    let theme = Theme::default();
    let both = resolve_cell_style(true, true, &theme, &CursorConfig::default());
    assert_eq!(both.fg, Some(theme_color_in(&theme, ThemeRole::Foreground)));
    assert_eq!(both.bg, None);
    assert!(both.underlined);
}

#[test]
fn start_menu_selected_item_is_not_background_highlighted() {
    let theme = Theme::default();
    let selected = resolve_start_menu_item_style(true, &theme);
    assert_eq!(selected.bg, None);
    assert_eq!(selected.fg, Some(theme_color_in(&theme, ThemeRole::Accent)));
    assert!(selected.bold);
}

#[test]
fn cell_styles_by_cursor_look_and_selection() {
    let theme = Theme::default();
    let block = CursorConfig { style: CursorStyleConfig::Block, blink: false };
    let b = resolve_cell_style(true, false, &theme, &block);
    assert_eq!(b.bg, Some(theme_color_in(&theme, ThemeRole::CursorLine)));
    assert!(!b.underlined);
    let under = CursorConfig { style: CursorStyleConfig::Underline, blink: false };
    let u = resolve_cell_style(true, false, &theme, &under);
    assert_eq!(u.bg, Some(theme_color_in(&theme, ThemeRole::Background)));
    assert!(u.underlined);
    let sel = resolve_cell_style(false, true, &theme, &block);
    assert_eq!(sel.fg, Some(theme_color_in(&theme, ThemeRole::ListSelectionForeground)));
    assert_eq!(sel.bg, Some(theme_color_in(&theme, ThemeRole::ListSelectionBackground)));
    let plain = resolve_cell_style(false, false, &theme, &block);
    assert_eq!(plain.bg, Some(theme_color_in(&theme, ThemeRole::Background)));
    let other = resolve_start_menu_item_style(false, &theme);
    assert!(!other.bold);
    assert_eq!(other.fg, Some(theme_color_in(&theme, ThemeRole::Foreground)));
}

fn texts(row: &[ScreenSpan]) -> Vec<String> {
    row.iter().map(|s| s.text.clone()).collect()
}

#[test]
fn body_rows_show_cells_caret_and_padding() {
    let mut doc = Document::new();
    let mut st = EditorState::default();
    for c in "a b".chars() {
        assert!(reduce_edit(&mut doc, &mut st, EditOp::InsertChar(c)));
    }
    let laid = layout_document(&doc, 20, &LayoutConfig::default());
    let theme = Theme::default();
    let editor = EditorConfig { show_invisibles: true, ..EditorConfig::default() };
    let typo = TypographyConfig { extra_word_spacing: 2, extra_letter_spacing: 0 };
    let rows = body_lines(&doc, &st, &laid, 3, &theme, &CursorConfig::default(), &typo, &editor);
    assert_eq!(rows.len(), 3);
    let first = texts(&rows[0]);
    assert_eq!(first[0], " ");
    assert_eq!(&first[2..5], &["a".to_string(), "\u{b7}  ".to_string(), "b".to_string()]);
    assert_eq!(first.last().unwrap(), " ");
    assert!(rows[0].last().unwrap().style.unwrap().underlined);
    assert_eq!(texts(&rows[2]), vec![" ".to_string()]);
    assert_eq!(rows[2][0].style, None);
}

#[test]
fn body_rows_mark_the_selection() {
    let mut doc = Document::new();
    let mut st = EditorState::default();
    for c in "abc".chars() {
        assert!(reduce_edit(&mut doc, &mut st, EditOp::InsertChar(c)));
    }
    st.selection = Some(Selection { anchor: 2, head: 0 });
    let laid = layout_document(&doc, 20, &LayoutConfig::default());
    let theme = Theme::default();
    let block = CursorConfig { style: CursorStyleConfig::Block, blink: false };
    let rows = body_lines(&doc, &st, &laid, 1, &theme, &block, &TypographyConfig::default(), &EditorConfig::default());
    let sel_bg = Some(theme_color_in(&theme, ThemeRole::ListSelectionBackground));
    assert_eq!(rows[0][2].style.unwrap().bg, sel_bg);
    assert_eq!(rows[0][3].style.unwrap().bg, sel_bg);
    assert_ne!(rows[0][4].style.unwrap().bg, sel_bg);
}

#[test]
fn status_line_pieces() {
    let ui = UiState { overlay: OverlayMode::NoOverlay, ..UiState::default() };
    let app = AppState::default();
    let mem = LayoutMemoryStats { line_count: 3, cell_count: 10, approx_bytes: 4096, queued_tasks: 1 };
    let t = status_spans(80, 24, &mem, &ui, &app);
    assert_eq!(t[0], " insert ");
    assert_eq!(t[1], " | (unsaved) ");
    assert_eq!(t[2], " | editor");
    assert_eq!(t[3], " | ready");
    assert!(t[4].starts_with(" | Ctrl+P palette"));
    let ui = UiState { status_details: true, mouse_enabled: false, ..UiState::default() };
    let mut app = AppState::default();
    app.status_message = Some("Saved".to_string());
    app.current_document_path = Some(PathBuf::from("/w/story.md"));
    let t = status_spans(80, 24, &mem, &ui, &app);
    assert_eq!(t[1], " | story.md ");
    assert_eq!(t[2], " | menu");
    assert_eq!(t[3], " | Saved");
    assert_eq!(t[4], " | 80\u{d7}24");
    assert_eq!(t[5], " | mem:3L/10C/4K/1Q");
    assert_eq!(t[6], " | mouse:off");
}

#[test]
fn centered_rect_cuts_and_centers() {
    let area = Area { x: 2, y: 1, width: 80, height: 24 };
    assert_eq!(centered_rect(area, 60, 10), Area { x: 12, y: 8, width: 60, height: 10 });
    assert_eq!(centered_rect(area, 100, 100), area);
}

#[test]
fn body_area_inside_the_frame() {
    let area = Area { x: 0, y: 0, width: 80, height: 24 };
    assert_eq!(body_inner_rect(area, true), area);
    assert_eq!(body_inner_rect(area, false), Area { x: 1, y: 1, width: 78, height: 21 });
    assert_eq!(body_inner_dims(area, false), (78, 21));
    assert!(area_is_usable(area, false));
    let tiny = Area { x: 0, y: 0, width: 2, height: 2 };
    assert!(!area_is_usable(tiny, false));
    assert_eq!(body_inner_dims(tiny, false), (1, 1));
    assert!(area_is_usable(tiny, true));
}

#[test]
fn modal_paragraphs_wrap_at_spaces() {
    assert_eq!(wrap_modal_paragraph("", 10), vec!["".to_string()]);
    assert_eq!(wrap_modal_paragraph("short  ", 10), vec!["short".to_string()]);
    assert_eq!(
        wrap_modal_paragraph("the quick brown fox", 10),
        vec!["the quick".to_string(), "brown fox".to_string()]
    );
    assert_eq!(
        wrap_modal_paragraph("abcdefghijkl", 5),
        vec!["abcde".to_string(), "fghij".to_string(), "kl".to_string()]
    );
    assert_eq!(wrap_modal_paragraph("ab", 0), vec!["a".to_string(), "b".to_string()]);
    assert_eq!(wrap_modal_paragraph("日本語", 3), vec!["日".to_string(), "本".to_string(), "語".to_string()]);
    assert_eq!(wrap_modal_paragraph("e\u{301}e\u{301}", 1), vec!["e\u{301}".to_string(), "e\u{301}".to_string()]);
}

#[test]
fn trimming_and_spaces() {
    let v: Vec<char> = "  a b  ".chars().collect();
    assert_eq!(trim_end_chars(&v).into_iter().collect::<String>(), "  a b");
    assert_eq!(trim_start_chars(&v).into_iter().collect::<String>(), "a b  ");
    assert_eq!(spaces_string(3), "   ");
    assert_eq!(AnsiColor::White, AnsiColor::White);
}
