//! The session: overlay keys, commands, recent documents, and snapshots.

use std::path::PathBuf;

use tyrannus::commands::{
    document_to_plain_text, AppCommand, KeyBinding, KeyName, OverlayMode, UiState,
};
use tyrannus::config::AppConfig;
use tyrannus::config::load_start_menu_title_name;
use tyrannus::session::{
    apply_toggle_chrome_hidden, begin_command, check_save_target, clear_status,
    compose_new_document_path, confirm_new_document, document_opened, finish_configuration_missing,
    finish_new_document_check, finish_writing_folder, fresh_editor_state, handle_overlay_key,
    pop_char, push_recent_document, record_edit, report_feedback, restore_snapshot,
    title_text_path_for, AppState, CommandNeed, OverlayAction, MAX_RECENT_DOCS,
    SNAPSHOT_EVERY_EDITS, apply_typing, editor_key_action, page_scroll, toggle_status_details,
    EditorKeyAction, reveal_caret, visible_viewport, is_document_extension, save_message,
    writing_folder_check, FolderStatus, SaveOutcome, feedback_takes_key, is_chrome_toggle,
    wheel_scroll, new_document_outcome, pick_listed_document,
};
use tyrannus::commands::{parse_runtime_keymap, RemapAction};
use tyrannus::render::body_frame_title;
use tyrannus::session::{apply_remap, configuration_not_created, open_failed_message, RemapFollowUp};
use tyrannus::config::EditorConfig;
use tyrannus::CursorMove;
use tyrannus::{flatten_document_chars, reduce_edit, Document, EditOp, EditorState};

fn key(code: KeyName) -> KeyBinding {
    KeyBinding { code, ctrl: false, shift: false, alt: false }
}

fn ctrl(code: KeyName) -> KeyBinding {
    KeyBinding { code, ctrl: true, shift: false, alt: false }
}

fn doc_text(doc: &Document) -> String {
    flatten_document_chars(doc).into_iter().map(|(_, ch)| ch).collect()
}

#[test]
fn menu_keys_move_and_pick_commands() {
    let app = AppState::default();
    let mut ui = UiState::default();
    assert_eq!(handle_overlay_key(key(KeyName::Up), &mut ui, &app), None);
    assert_eq!(ui.menu_selected, 0);
    for _ in 0..10 {
        handle_overlay_key(key(KeyName::Down), &mut ui, &app);
    }
    assert_eq!(ui.menu_selected, 5);
    assert_eq!(
        handle_overlay_key(key(KeyName::Enter), &mut ui, &app),
        Some(OverlayAction::Execute(AppCommand::Save))
    );
    ui.menu_selected = 1;
    assert_eq!(
        handle_overlay_key(key(KeyName::Enter), &mut ui, &app),
        Some(OverlayAction::Execute(AppCommand::RecentDocuments))
    );
    ui.menu_selected = 99;
    assert_eq!(
        handle_overlay_key(key(KeyName::Enter), &mut ui, &app),
        Some(OverlayAction::Execute(AppCommand::Save))
    );
    assert_eq!(handle_overlay_key(key(KeyName::Char('x')), &mut ui, &app), None);
    assert_eq!(ui.overlay, OverlayMode::Menu);
}

#[test]
fn no_overlay_takes_no_keys() {
    let app = AppState::default();
    let mut ui = UiState { overlay: OverlayMode::NoOverlay, ..UiState::default() };
    assert_eq!(handle_overlay_key(key(KeyName::Esc), &mut ui, &app), None);
    assert_eq!(ui.overlay, OverlayMode::NoOverlay);
}

#[test]
fn help_closes_to_menu() {
    let app = AppState::default();
    let mut ui = UiState { overlay: OverlayMode::Help, ..UiState::default() };
    handle_overlay_key(key(KeyName::Char('a')), &mut ui, &app);
    assert_eq!(ui.overlay, OverlayMode::Help);
    handle_overlay_key(key(KeyName::F(1)), &mut ui, &app);
    assert_eq!(ui.overlay, OverlayMode::Menu);
    ui.overlay = OverlayMode::Help;
    handle_overlay_key(key(KeyName::Esc), &mut ui, &app);
    assert_eq!(ui.overlay, OverlayMode::Menu);
}

#[test]
fn palette_typing_filters_and_runs() {
    let app = AppState::default();
    let mut ui = UiState { overlay: OverlayMode::CommandPalette, ..UiState::default() };
    for c in "WRIT".chars() {
        handle_overlay_key(key(KeyName::Char(c)), &mut ui, &app);
    }
    assert_eq!(ui.palette_query, "WRIT");
    handle_overlay_key(key(KeyName::Down), &mut ui, &app);
    assert_eq!(ui.palette_selected, 0);
    assert_eq!(
        handle_overlay_key(key(KeyName::Enter), &mut ui, &app),
        Some(OverlayAction::Execute(AppCommand::WritingFolder))
    );
    handle_overlay_key(key(KeyName::Backspace), &mut ui, &app);
    assert_eq!(ui.palette_query, "WRI");
    for _ in 0..4 {
        handle_overlay_key(key(KeyName::Backspace), &mut ui, &app);
    }
    assert_eq!(ui.palette_query, "");
    for _ in 0..9 {
        handle_overlay_key(key(KeyName::Down), &mut ui, &app);
    }
    assert_eq!(ui.palette_selected, 5);
    handle_overlay_key(key(KeyName::Char('z')), &mut ui, &app);
    assert_eq!(ui.palette_selected, 0);
    assert_eq!(handle_overlay_key(key(KeyName::Enter), &mut ui, &app), None);
    handle_overlay_key(ctrl(KeyName::Char('p')), &mut ui, &app);
    assert_eq!(ui.overlay, OverlayMode::NoOverlay);
}

#[test]
fn filename_prompt_edits_and_confirms() {
    let app = AppState::default();
    let mut ui = UiState { overlay: OverlayMode::NewDocumentFilename, ..UiState::default() };
    for c in "notes".chars() {
        handle_overlay_key(key(KeyName::Char(c)), &mut ui, &app);
    }
    handle_overlay_key(key(KeyName::Backspace), &mut ui, &app);
    assert_eq!(ui.new_document_filename_input, "note");
    assert_eq!(
        handle_overlay_key(key(KeyName::Enter), &mut ui, &app),
        Some(OverlayAction::ConfirmNewDocumentBasename)
    );
    handle_overlay_key(ctrl(KeyName::Backspace), &mut ui, &app);
    assert_eq!(ui.overlay, OverlayMode::Help);
    assert_eq!(ui.new_document_filename_input, "note");
}

#[test]
fn filename_prompt_stops_at_its_limit() {
    let app = AppState::default();
    let mut ui = UiState { overlay: OverlayMode::NewDocumentFilename, ..UiState::default() };
    for _ in 0..300 {
        handle_overlay_key(key(KeyName::Char('é')), &mut ui, &app);
    }
    assert_eq!(ui.new_document_filename_input.chars().count(), 256);
}

#[test]
fn lists_stop_at_their_ends() {
    let mut app = AppState::default();
    app.recent_documents = vec![PathBuf::from("a.md"), PathBuf::from("b.md")];
    let mut ui = UiState { overlay: OverlayMode::RecentDocuments, ..UiState::default() };
    for _ in 0..5 {
        handle_overlay_key(key(KeyName::Down), &mut ui, &app);
    }
    assert_eq!(ui.list_selected, 1);
    assert_eq!(
        handle_overlay_key(key(KeyName::Enter), &mut ui, &app),
        Some(OverlayAction::OpenSelectedRecent)
    );
    ui.overlay = OverlayMode::WritingFolder;
    handle_overlay_key(key(KeyName::Down), &mut ui, &app);
    assert_eq!(ui.list_selected, 0);
    assert_eq!(
        handle_overlay_key(key(KeyName::Enter), &mut ui, &app),
        Some(OverlayAction::OpenSelectedWriting)
    );
    handle_overlay_key(key(KeyName::Esc), &mut ui, &app);
    assert_eq!(ui.overlay, OverlayMode::Menu);
}

#[test]
fn configuration_dialog_keys() {
    let app = AppState::default();
    let mut ui = UiState { overlay: OverlayMode::Configuration, ..UiState::default() };
    assert_eq!(
        handle_overlay_key(key(KeyName::Char('R')), &mut ui, &app),
        Some(OverlayAction::RetryConfiguration)
    );
    assert_eq!(
        handle_overlay_key(key(KeyName::Char('c')), &mut ui, &app),
        Some(OverlayAction::CreateConfiguration)
    );
    assert_eq!(handle_overlay_key(ctrl(KeyName::Char('h')), &mut ui, &app), None);
    assert_eq!(ui.overlay, OverlayMode::Help);
}

#[test]
fn pop_char_drops_one_char() {
    let mut s = "aé".to_string();
    pop_char(&mut s);
    assert_eq!(s, "a");
    pop_char(&mut s);
    pop_char(&mut s);
    assert_eq!(s, "");
}

#[test]
fn status_and_chrome_toggles() {
    let mut app = AppState::default();
    let mut ui = UiState::default();
    app.status_message = Some("x".to_string());
    clear_status(&mut app);
    assert_eq!(app.status_message, None);
    apply_toggle_chrome_hidden(&mut ui, &mut app);
    assert!(ui.chrome_hidden);
    assert_eq!(app.status_message, None);
    apply_toggle_chrome_hidden(&mut ui, &mut app);
    assert!(!ui.chrome_hidden);
    assert_eq!(app.status_message.as_deref(), Some("Chrome shown (Ctrl+K to hide)"));
}

#[test]
fn recent_documents_put_newest_first_without_repeats() {
    let mut app = AppState::default();
    for i in 0..15 {
        push_recent_document(&mut app, PathBuf::from(format!("doc{i}.md")));
    }
    assert_eq!(app.recent_documents.len(), MAX_RECENT_DOCS);
    assert_eq!(app.recent_documents[0], PathBuf::from("doc14.md"));
    assert_eq!(app.recent_documents[11], PathBuf::from("doc3.md"));
    push_recent_document(&mut app, PathBuf::from("doc10.md"));
    assert_eq!(app.recent_documents.len(), MAX_RECENT_DOCS);
    assert_eq!(app.recent_documents[0], PathBuf::from("doc10.md"));
    assert_eq!(app.recent_documents[1], PathBuf::from("doc14.md"));
    assert_eq!(
        app.recent_documents.iter().filter(|p| **p == PathBuf::from("doc10.md")).count(),
        1
    );
    assert_eq!(app.recent_documents[11], PathBuf::from("doc3.md"));
}

#[test]
fn edits_count_towards_snapshots() {
    let mut app = AppState::default();
    for _ in 0..SNAPSHOT_EVERY_EDITS - 1 {
        assert!(!record_edit(&mut app));
    }
    assert!(record_edit(&mut app));
    assert_eq!(app.edit_counter, 40);
    app.edit_counter = usize::MAX;
    record_edit(&mut app);
    assert_eq!(app.edit_counter, usize::MAX);
}

#[test]
fn snapshot_roundtrip_restores_document() {
    let mut doc = Document::new();
    let mut st = EditorState::default();
    assert!(reduce_edit(&mut doc, &mut st, EditOp::InsertChar('h')));
    assert!(reduce_edit(&mut doc, &mut st, EditOp::InsertChar('i')));

    let mut app = AppState::default();
    app.edit_counter = SNAPSHOT_EVERY_EDITS - 1;
    assert!(record_edit(&mut app));
    let snapshot = document_to_plain_text(&doc);

    let mut recovered_doc = Document::new();
    let mut recovered_st = EditorState::default();
    assert!(restore_snapshot(&mut recovered_doc, &mut recovered_st, &mut app, &snapshot));
    assert_eq!(doc_text(&recovered_doc), "hi");
    assert_eq!(app.status_message.as_deref(), Some("Recovered unsaved snapshot"));
}

#[test]
fn blank_snapshot_is_not_restored() {
    let mut doc = Document::new();
    let mut st = EditorState::default();
    let mut app = AppState::default();
    assert!(!restore_snapshot(&mut doc, &mut st, &mut app, " \n\t\n"));
    assert_eq!(app.status_message, None);
}

#[test]
fn title_art_lives_under_titletext() {
    assert_eq!(title_text_path_for("Rebel"), PathBuf::from("titletext").join("Rebel"));
}

#[test]
fn compose_new_document_path_joins_checked_names() {
    let base = PathBuf::from(".");
    assert_eq!(
        compose_new_document_path(&base, "fresh_document_name").unwrap(),
        base.join("fresh_document_name.md")
    );
    assert_eq!(
        compose_new_document_path(&base, "a/b").unwrap_err(),
        "Use a basename only, not a path."
    );
}

#[test]
fn reads_start_menu_title_from_root_config_key() {
    let mut app = AppConfig::with_home(None);
    app.ui.start_menu_title = "".to_string();
    assert_eq!(load_start_menu_title_name(&app, Some("start_menu_title = \"Rebel\"")), "Rebel");
}

#[test]
fn reads_start_menu_title_from_ui_table_key() {
    let mut app = AppConfig::with_home(None);
    app.ui.start_menu_title = "".to_string();
    assert_eq!(
        load_start_menu_title_name(&app, Some("\n[ui]\nstart_menu_title = \"3D-ASCII\"\n")),
        "3D-ASCII"
    );
}

#[test]
fn start_menu_title_falls_back() {
    let mut app = AppConfig::with_home(None);
    assert_eq!(load_start_menu_title_name(&app, Some("start_menu_title = \"X\"")), "ANSI-Shadow");
    app.ui.start_menu_title = "  Big  ".to_string();
    assert_eq!(load_start_menu_title_name(&app, None), "Big");
    app.ui.start_menu_title = " ".to_string();
    assert_eq!(load_start_menu_title_name(&app, None), "ANSI-Shadow");
    assert_eq!(load_start_menu_title_name(&app, Some("not = = toml")), "ANSI-Shadow");
    assert_eq!(load_start_menu_title_name(&app, Some("start_menu_title = 3")), "ANSI-Shadow");
}

#[test]
fn commands_start_as_the_menu_says() {
    let mut ui = UiState::default();
    let mut app = AppState::default();
    assert_eq!(begin_command(AppCommand::Save, &mut ui, &mut app), CommandNeed::SaveDocument);
    assert_eq!(ui.overlay, OverlayMode::Menu);
    assert_eq!(
        begin_command(AppCommand::NewDocument, &mut ui, &mut app),
        CommandNeed::CheckWritingFolder
    );
    assert_eq!(begin_command(AppCommand::ShowHelp, &mut ui, &mut app), CommandNeed::Done);
    assert_eq!(ui.overlay, OverlayMode::Help);
    assert_eq!(app.status_message.as_deref(), Some("Opened help."));
    ui.save_feedback = Some("old".to_string());
    assert_eq!(begin_command(AppCommand::RecentDocuments, &mut ui, &mut app), CommandNeed::Done);
    assert_eq!(ui.overlay, OverlayMode::RecentDocuments);
    assert_eq!(ui.save_feedback, None);
    assert_eq!(
        app.status_message.as_deref(),
        Some("No recent documents yet. Open one from Writing folder first.")
    );
    ui.list_selected = 3;
    assert_eq!(
        begin_command(AppCommand::WritingFolder, &mut ui, &mut app),
        CommandNeed::ListWritingFolder
    );
    assert_eq!(ui.list_selected, 0);
    assert_eq!(ui.overlay, OverlayMode::WritingFolder);
    assert_eq!(
        begin_command(AppCommand::Configuration, &mut ui, &mut app),
        CommandNeed::OpenConfiguration
    );
    assert_eq!(ui.overlay, OverlayMode::NoOverlay);
}

#[test]
fn command_outcomes_set_the_status_line() {
    let mut ui = UiState::default();
    let mut app = AppState::default();
    finish_new_document_check(&mut ui, &mut app, Err("nope".to_string()));
    assert_eq!(ui.save_feedback.as_deref(), Some("nope"));
    assert_eq!(app.status_message.as_deref(), Some("nope"));
    ui.new_document_filename_input = "x".to_string();
    finish_new_document_check(&mut ui, &mut app, Ok(()));
    assert_eq!(ui.overlay, OverlayMode::NewDocumentFilename);
    assert_eq!(ui.new_document_filename_input, "");

    finish_writing_folder(&mut app, Ok(Vec::new()), "/w");
    assert_eq!(
        app.status_message.as_deref(),
        Some("No .md/.txt/.toml files in /w. Add files or set [paths].writing_folder in config.")
    );
    finish_writing_folder(&mut app, Ok(vec![PathBuf::from("/w/a.md")]), "/w");
    assert_eq!(app.writing_folder_entries.len(), 1);
    assert_eq!(app.status_message.as_deref(), Some("Select a document and press Enter to open."));
    finish_writing_folder(&mut app, Err("gone".to_string()), "/w");
    assert_eq!(app.writing_folder_overlay_error.as_deref(), Some("gone"));
    assert!(app.writing_folder_entries.is_empty());

    finish_configuration_missing(&mut ui, &mut app, "/c.toml");
    assert_eq!(ui.overlay, OverlayMode::Configuration);
    assert!(app.status_message.as_deref().unwrap().starts_with("Configuration file not found at /c.toml."));

    report_feedback(&mut ui, &mut app, "Saved x".to_string());
    assert_eq!(ui.save_feedback.as_deref(), Some("Saved x"));
}

#[test]
fn saving_needs_a_path() {
    let mut ui = UiState::default();
    let mut app = AppState::default();
    assert!(!check_save_target(&mut ui, &mut app));
    assert!(ui.save_feedback.as_deref().unwrap().starts_with("No file path."));
    app.current_document_path = Some(PathBuf::from("a.md"));
    ui.save_feedback = None;
    assert!(check_save_target(&mut ui, &mut app));
    assert_eq!(ui.save_feedback, None);
}

#[test]
fn opening_a_document_loads_its_text() {
    let mut doc = Document::new();
    let mut st = EditorState::default();
    let mut app = AppState::default();
    document_opened(&mut doc, &mut st, &mut app, PathBuf::from("n.md"), "one\ntwo", "n.md");
    assert_eq!(doc.blocks.len(), 2);
    assert_eq!(doc_text(&doc), "onetwo");
    assert_eq!(app.current_document_path, Some(PathBuf::from("n.md")));
    assert_eq!(app.recent_documents, vec![PathBuf::from("n.md")]);
    assert_eq!(app.status_message.as_deref(), Some("Opened n.md"));
    let fresh = fresh_editor_state(&doc);
    assert_eq!(st.cursor, fresh.cursor);
}

#[test]
fn confirming_a_name_makes_a_new_document() {
    let mut doc = Document::new();
    let mut st = EditorState::default();
    let mut ui = UiState { overlay: OverlayMode::NewDocumentFilename, ..UiState::default() };
    let mut app = AppState::default();
    let root = PathBuf::from(".");
    ui.new_document_filename_input = "doc.pdf".to_string();
    assert!(!confirm_new_document(&mut doc, &mut st, &mut ui, &mut app, &root));
    assert_eq!(ui.overlay, OverlayMode::NewDocumentFilename);
    assert!(app.status_message.as_deref().unwrap().contains("not allowed"));
    assert!(reduce_edit(&mut doc, &mut st, EditOp::InsertChar('z')));
    ui.new_document_filename_input = "brand_new_story".to_string();
    assert!(confirm_new_document(&mut doc, &mut st, &mut ui, &mut app, &root));
    assert_eq!(doc_text(&doc), "");
    assert_eq!(ui.overlay, OverlayMode::NoOverlay);
    assert_eq!(ui.new_document_filename_input, "");
    assert_eq!(app.current_document_path, Some(root.join("brand_new_story.md")));
    assert!(app.status_message.as_deref().unwrap().starts_with("New document: "));
}

#[test]
fn editor_keys_map_to_actions() {
    let mut cfg = AppConfig::with_home(None);
    cfg.keymap.bindings = vec![("quit".to_string(), "ctrl+x".to_string())];
    let keymap = parse_runtime_keymap(&cfg).unwrap();
    let ed = EditorConfig::default();
    assert_eq!(
        editor_key_action(ctrl(KeyName::Char('x')), false, &keymap, &ed),
        EditorKeyAction::Remap(RemapAction::Quit)
    );
    assert_eq!(editor_key_action(ctrl(KeyName::Char('x')), true, &keymap, &ed), EditorKeyAction::Insert('x', 1));
    assert_eq!(editor_key_action(ctrl(KeyName::Char('q')), false, &keymap, &ed), EditorKeyAction::Quit);
    assert_eq!(editor_key_action(ctrl(KeyName::Char('s')), false, &keymap, &ed), EditorKeyAction::Save);
    assert_eq!(editor_key_action(ctrl(KeyName::Char('h')), false, &keymap, &ed), EditorKeyAction::OpenHelp);
    assert_eq!(editor_key_action(key(KeyName::Esc), false, &keymap, &ed), EditorKeyAction::OpenMenu);
    assert_eq!(editor_key_action(key(KeyName::F(2)), false, &keymap, &ed), EditorKeyAction::ToggleStatusDetails);
    assert_eq!(editor_key_action(key(KeyName::F(5)), false, &keymap, &ed), EditorKeyAction::Ignore);
    assert_eq!(editor_key_action(key(KeyName::Tab), false, &keymap, &ed), EditorKeyAction::Insert(' ', 4));
    let hard = EditorConfig { hard_tabs: true, ..EditorConfig::default() };
    assert_eq!(editor_key_action(key(KeyName::Tab), false, &keymap, &hard), EditorKeyAction::Insert('\t', 1));
    let shift_left = KeyBinding { code: KeyName::Left, ctrl: false, shift: true, alt: false };
    assert_eq!(
        editor_key_action(shift_left, false, &keymap, &ed),
        EditorKeyAction::Move(CursorMove::Left, true)
    );
    assert_eq!(editor_key_action(key(KeyName::PageDown), false, &keymap, &ed), EditorKeyAction::PageDown);
    assert_eq!(editor_key_action(key(KeyName::BackTab), false, &keymap, &ed), EditorKeyAction::Ignore);
}

#[test]
fn typing_clears_status_and_counts_edits() {
    let mut doc = Document::new();
    let mut st = EditorState::default();
    let mut app = AppState::default();
    app.status_message = Some("old".to_string());
    app.edit_counter = SNAPSHOT_EVERY_EDITS - 2;
    let (changed, snap) = apply_typing(&mut doc, &mut st, &mut app, EditorKeyAction::Insert(' ', 4));
    assert!(changed);
    assert_eq!(doc_text(&doc), "    ");
    assert_eq!(app.status_message, None);
    assert_eq!(app.edit_counter, SNAPSHOT_EVERY_EDITS + 2);
    assert_eq!(snap.as_deref(), Some("  "));
    let (changed, snap) = apply_typing(&mut doc, &mut st, &mut app, EditorKeyAction::NewLine);
    assert!(changed);
    assert_eq!(snap, None);
    assert_eq!(doc.blocks.len(), 2);
    let mut empty = Document::new();
    let mut st2 = EditorState::default();
    app.status_message = Some("kept".to_string());
    let (changed, _) = apply_typing(&mut empty, &mut st2, &mut app, EditorKeyAction::Backspace);
    assert!(!changed);
    assert_eq!(app.status_message.as_deref(), Some("kept"));
}

#[test]
fn pages_scroll_by_a_row_less_than_the_view() {
    assert_eq!(page_scroll(10, 5, true), 14);
    assert_eq!(page_scroll(10, 5, false), 6);
    assert_eq!(page_scroll(2, 5, false), 0);
    assert_eq!(page_scroll(3, 0, false), 2);
    assert_eq!(page_scroll(usize::MAX - 1, 10, true), usize::MAX);
}

#[test]
fn status_details_toggle_says_so() {
    let mut ui = UiState::default();
    let mut app = AppState::default();
    toggle_status_details(&mut ui, &mut app);
    assert!(ui.status_details);
    assert_eq!(app.status_message.as_deref(), Some("Status details enabled"));
    toggle_status_details(&mut ui, &mut app);
    assert_eq!(app.status_message.as_deref(), Some("Status details hidden"));
}

#[test]
fn viewport_and_caret_reveal() {
    let v = visible_viewport(5, 10, 12, 40);
    assert_eq!((v.top_index, v.bottom_exclusive, v.width), (5, 12, 40));
    let v = visible_viewport(0, 10, 100, 40);
    assert_eq!(v.bottom_exclusive, 10);
    assert_eq!(reveal_caret(0, 10, 100, Some(25)), 16);
    assert_eq!(reveal_caret(30, 10, 100, Some(25)), 25);
    assert_eq!(reveal_caret(95, 10, 100, None), 90);
    assert_eq!(reveal_caret(3, 10, 5, Some(4)), 0);
}

#[test]
fn folder_and_save_messages() {
    assert_eq!(writing_folder_check(&FolderStatus::Directory, "/w"), Ok(()));
    assert_eq!(
        writing_folder_check(&FolderStatus::Missing, "/w").unwrap_err(),
        "Writing folder does not exist: /w. Create it or set [paths].writing_folder in config."
    );
    assert!(writing_folder_check(&FolderStatus::NotDirectory, "/w").unwrap_err().contains("not a directory"));
    assert_eq!(
        writing_folder_check(&FolderStatus::Unreadable("denied".to_string()), "/w").unwrap_err(),
        "Cannot access Writing folder /w: denied"
    );
    assert_eq!(save_message(&SaveOutcome::Saved, "/w/a.md"), "Saved /w/a.md");
    let missing = save_message(&SaveOutcome::FolderMissing("/nope".to_string()), "/nope/a.md");
    assert!(missing.contains("directory does not exist"), "unexpected message: {missing}");
    assert_eq!(
        save_message(&SaveOutcome::Failed("disk full".to_string()), "/w/a.md"),
        "Could not save /w/a.md: disk full"
    );
    assert!(is_document_extension("MD"));
    assert!(is_document_extension("toml"));
    assert!(!is_document_extension("pdf"));
}

#[test]
fn wheel_feedback_and_chrome_keys() {
    assert_eq!(wheel_scroll(10, true), 13);
    assert_eq!(wheel_scroll(2, false), 0);
    assert_eq!(wheel_scroll(usize::MAX, true), usize::MAX);
    let mut ui = UiState::default();
    assert!(!feedback_takes_key(&mut ui, Some(KeyName::Esc)));
    ui.save_feedback = Some("Saved".to_string());
    assert!(feedback_takes_key(&mut ui, Some(KeyName::Char('x'))));
    assert!(ui.save_feedback.is_some());
    assert!(feedback_takes_key(&mut ui, None));
    assert!(feedback_takes_key(&mut ui, Some(KeyName::Enter)));
    assert!(ui.save_feedback.is_none());
    assert!(is_chrome_toggle(ctrl(KeyName::Char('k'))));
    assert!(!is_chrome_toggle(key(KeyName::Char('k'))));
}

#[test]
fn new_document_outcome_refuses_existing_paths() {
    let full = PathBuf::from("notes").join("a.md");
    assert_eq!(new_document_outcome(full.clone(), false), Ok(full.clone()));
    assert_eq!(
        new_document_outcome(full.clone(), true),
        Err(format!("{} already exists. Choose another basename.", full.display()))
    );
}

#[test]
fn recent_documents_keep_others_in_order() {
    let mut app = AppState::default();
    app.recent_documents = vec![
        PathBuf::from("a.md"),
        PathBuf::from("b.md"),
        PathBuf::from("a.md"),
        PathBuf::from("c.md"),
    ];
    push_recent_document(&mut app, PathBuf::from("a.md"));
    assert_eq!(
        app.recent_documents,
        vec![PathBuf::from("a.md"), PathBuf::from("b.md"), PathBuf::from("c.md")]
    );
}

#[test]
fn opened_document_becomes_current_and_first() {
    let mut doc = Document::new();
    let mut st = EditorState::default();
    let mut app = AppState::default();
    app.recent_documents = vec![PathBuf::from("x.md")];
    document_opened(&mut doc, &mut st, &mut app, PathBuf::from("y.md"), "hello", "y.md");
    assert_eq!(app.current_document_path, Some(PathBuf::from("y.md")));
    assert_eq!(app.recent_documents, vec![PathBuf::from("y.md"), PathBuf::from("x.md")]);
    assert_eq!(app.status_message.as_deref(), Some("Opened y.md"));
}

#[test]
fn confirmed_new_document_takes_the_joined_path() {
    let root = PathBuf::from("target").join("no_such_folder_for_new_documents");
    let mut doc = Document::new();
    let mut st = EditorState::default();
    let mut ui = UiState::default();
    let mut app = AppState::default();
    ui.new_document_filename_input = "draft".to_string();
    assert!(confirm_new_document(&mut doc, &mut st, &mut ui, &mut app, &root));
    let p = root.join("draft.md");
    assert_eq!(app.current_document_path, Some(p.clone()));
    assert_eq!(app.recent_documents[0], p);
    assert_eq!(
        app.status_message,
        Some(format!("New document: {} (Ctrl+S to save.)", p.display()))
    );
    assert_eq!(ui.new_document_filename_input, "");
}

#[test]
fn picking_a_listed_document_closes_the_list() {
    let mut ui = UiState::default();
    let mut app = AppState::default();
    app.recent_documents = vec![PathBuf::from("a.md"), PathBuf::from("b.md")];
    ui.overlay = OverlayMode::RecentDocuments;
    ui.list_selected = 1;
    assert_eq!(pick_listed_document(&mut ui, &mut app, true), Some(PathBuf::from("b.md")));
    assert_eq!(ui.overlay, OverlayMode::NoOverlay);
    assert_eq!(app.status_message, None);
    ui.overlay = OverlayMode::WritingFolder;
    assert_eq!(pick_listed_document(&mut ui, &mut app, false), None);
    assert_eq!(ui.overlay, OverlayMode::NoOverlay);
    assert_eq!(
        app.status_message.as_deref(),
        Some("No document selected. Use Up/Down then Enter.")
    );
    ui.list_selected = 5;
    assert_eq!(pick_listed_document(&mut ui, &mut app, true), None);
    assert_eq!(
        app.status_message.as_deref(),
        Some("No recent document selected. Use Up/Down then Enter.")
    );
}

#[test]
fn remapped_keys_open_overlays_or_hand_back_work() {
    let mut ui = UiState { overlay: OverlayMode::NoOverlay, ..UiState::default() };
    let mut app = AppState::default();
    assert_eq!(apply_remap(RemapAction::OpenPalette, &mut ui, &mut app), RemapFollowUp::Done);
    assert_eq!(ui.overlay, OverlayMode::CommandPalette);
    assert_eq!(apply_remap(RemapAction::OpenMenu, &mut ui, &mut app), RemapFollowUp::Done);
    assert_eq!(ui.overlay, OverlayMode::Menu);
    assert_eq!(apply_remap(RemapAction::OpenHelp, &mut ui, &mut app), RemapFollowUp::Done);
    assert_eq!(ui.overlay, OverlayMode::Help);
    assert_eq!(apply_remap(RemapAction::Quit, &mut ui, &mut app), RemapFollowUp::Quit);
    assert_eq!(
        apply_remap(RemapAction::Command(AppCommand::Save), &mut ui, &mut app),
        RemapFollowUp::Run(AppCommand::Save)
    );
    assert!(app.status_message.is_none());
    let details = ui.status_details;
    assert_eq!(apply_remap(RemapAction::ToggleStatusDetails, &mut ui, &mut app), RemapFollowUp::Done);
    assert_eq!(ui.status_details, !details);
    assert!(app.status_message.is_some());
    let hidden = ui.chrome_hidden;
    apply_remap(RemapAction::ToggleChromeHidden, &mut ui, &mut app);
    assert_eq!(ui.chrome_hidden, !hidden);
}

#[test]
fn failure_messages_say_what_to_do() {
    let mut ui = UiState { overlay: OverlayMode::NoOverlay, ..UiState::default() };
    let mut app = AppState::default();
    configuration_not_created(&mut ui, &mut app, "denied");
    assert_eq!(ui.overlay, OverlayMode::Configuration);
    assert_eq!(
        app.status_message.as_deref(),
        Some("Could not create configuration file: denied. Run scripts/install-config.sh from the tyrannus repo (install step), or fix permissions.")
    );
    assert_eq!(
        open_failed_message("/w/a.md", "gone"),
        "Could not open /w/a.md: gone. Verify the path/permissions, then retry from Writing folder (Ctrl+M)."
    );
}

#[test]
fn frame_title_mentions_the_mouse_only_when_captured() {
    assert!(body_frame_title(true).contains("wheel"));
    assert!(!body_frame_title(true).contains("(no mouse)"));
    assert!(body_frame_title(false).ends_with("(no mouse) "));
}
