//! Dialogs, the start menu and the save message.

use tyrannus::commands::{OverlayMode, UiState};
use tyrannus::config::{theme_color_in, Theme, ThemeRole};
use tyrannus::panels::{feedback_panel, overlay_panel, start_menu_panel, too_small_message};
use tyrannus::render::{Area, ScreenSpan};

fn texts(rows: &[Vec<ScreenSpan>]) -> Vec<String> {
    rows.iter().map(|r| r.iter().map(|s| s.text.clone()).collect::<String>()).collect()
}

#[test]
fn small_screens_say_so_briefly() {
    assert_eq!(too_small_message(30), "terminal too small");
    assert_eq!(too_small_message(10), "too small");
    assert_eq!(too_small_message(3), "...");
}

#[test]
fn save_message_wraps_and_centers() {
    let frame = Area { x: 0, y: 0, width: 100, height: 40 };
    let (area, rows) = feedback_panel(frame, "Saved /tmp/a.md\nsecond line");
    assert_eq!(
        texts(&rows),
        vec!["", "Saved /tmp/a.md", "second line", "", "  Esc or Enter: dismiss"]
    );
    assert_eq!(area, Area { x: 15, y: 16, width: 70, height: 8 });
    let long = "word ".repeat(30);
    let (area, rows) = feedback_panel(Area { x: 0, y: 0, width: 30, height: 10 }, &long);
    assert_eq!(area.width, 30);
    assert_eq!(area.height, 10);
    assert!(rows.len() > 5);
    assert!(texts(&rows).iter().all(|t| t.chars().count() <= 26));
}

#[test]
fn start_menu_lists_commands_and_centers() {
    let theme = Theme::default();
    let ui = UiState { menu_selected: 2, ..UiState::default() };
    let (area, rows) = start_menu_panel(Area { x: 0, y: 0, width: 80, height: 24 }, &ui, &theme);
    let t = texts(&rows);
    assert_eq!(t[0], "Start Menu");
    assert_eq!(t[2], "  New Document");
    assert_eq!(t[4], "> Writing folder");
    assert_eq!(t[9], "Enter: select  F1 or Ctrl+H: help");
    assert_eq!(rows[4][0].style.unwrap().fg, Some(theme_color_in(&theme, ThemeRole::Accent)));
    assert!(rows[4][0].style.unwrap().bold);
    assert_eq!(area.width, 33);
    assert_eq!(area.height, 10);
    assert_eq!(area.x, 23);
    assert_eq!(area.y, 7);
    let with_art = UiState { start_menu_title_lines: vec!["ART".to_string()], ..UiState::default() };
    let (_, rows) = start_menu_panel(Area { x: 0, y: 0, width: 80, height: 24 }, &with_art, &theme);
    let t = texts(&rows);
    assert_eq!(t[0], "ART");
    assert_eq!(t[1], "");
    assert_eq!(t[2], "Start Menu");
}

#[test]
fn overlays_have_their_dialogs() {
    let theme = Theme::default();
    let none: Vec<String> = Vec::new();
    let ui = UiState { overlay: OverlayMode::Menu, ..UiState::default() };
    assert!(overlay_panel(&ui, &theme, "/w", &none, &none, None).is_none());
    let ui = UiState { overlay: OverlayMode::Help, ..UiState::default() };
    let p = overlay_panel(&ui, &theme, "/w", &none, &none, None).unwrap();
    assert_eq!((p.width, p.height, p.title), (76, 20, " Help "));
    assert_eq!(p.rows.len(), 15);
    let ui = UiState { overlay: OverlayMode::RecentDocuments, list_selected: 1, ..UiState::default() };
    let recent = vec!["/w/a.md".to_string(), "/w/b.md".to_string()];
    let p = overlay_panel(&ui, &theme, "/w", &recent, &none, None).unwrap();
    let t = texts(&p.rows);
    assert_eq!(t[2], "  /w/a.md");
    assert_eq!(t[3], "> /w/b.md");
    assert_eq!(p.rows[3][0].style.unwrap().bg, Some(theme_color_in(&theme, ThemeRole::ListSelectionBackground)));
    let p = overlay_panel(&ui, &theme, "/w", &none, &none, None).unwrap();
    assert_eq!(texts(&p.rows)[2], "  No recent documents yet");
    let ui = UiState { overlay: OverlayMode::WritingFolder, ..UiState::default() };
    let p = overlay_panel(&ui, &theme, "/w", &none, &none, Some("Writing folder does not exist")).unwrap();
    let t = texts(&p.rows);
    assert_eq!(t[2], "  /w");
    assert_eq!(t[4], "  Writing folder does not exist");
    let ui = UiState {
        overlay: OverlayMode::CommandPalette,
        palette_query: "re".to_string(),
        ..UiState::default()
    };
    let p = overlay_panel(&ui, &theme, "/w", &none, &none, None).unwrap();
    let t = texts(&p.rows);
    assert_eq!(t[0], "> re");
    assert_eq!(t[2], "> Recent Documents");
    assert_eq!(p.height, 8);
    let ui = UiState { overlay: OverlayMode::CommandPalette, ..UiState::default() };
    let p = overlay_panel(&ui, &theme, "/w", &none, &none, None).unwrap();
    assert_eq!(p.height, 11);
    let ui = UiState {
        overlay: OverlayMode::CommandPalette,
        palette_query: "zzz".to_string(),
        ..UiState::default()
    };
    let p = overlay_panel(&ui, &theme, "/w", &none, &none, None).unwrap();
    assert_eq!(texts(&p.rows)[2], "  No matches");
    let ui = UiState {
        overlay: OverlayMode::NewDocumentFilename,
        new_document_filename_input: "draft".to_string(),
        ..UiState::default()
    };
    let p = overlay_panel(&ui, &theme, "/w", &none, &none, None).unwrap();
    let t = texts(&p.rows);
    assert_eq!(t[2], "  Folder: /w");
    assert_eq!(t[4], "> draft");
    let ui = UiState { overlay: OverlayMode::Configuration, ..UiState::default() };
    let p = overlay_panel(&ui, &theme, "/w", &none, &none, None).unwrap();
    assert_eq!(p.rows.len(), 7);
}
