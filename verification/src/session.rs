//! The editing session around the document: which overlay takes the keys,
//! the open document's path, the recent documents and the status line.

use std::path::PathBuf;

use vstd::prelude::*;

use crate::commands::{
    bound_to, document_to_plain_text, lookup_remap_action, plain_text, RemapAction, RuntimeKeymap,
    command_items, command_list, filtered_palette_items, finalize_new_document_basename, items_view,
    key_opens_help, new_basename, palette_keep, plain_text_to_document, text_document, AppCommand,
    KeyBinding, KeyName, OverlayMode, UiState,
};
use crate::config::{joined_path, path_equal, path_join, path_under};
use crate::cursor::{normalized, Cursor, CursorView};
use crate::document::{empty_paragraph, Document, DocumentView};
use crate::config::EditorConfig;
use crate::edit::{reduce_edit, reduce_edit_spec, CursorMove, EditOp, EditOpView, EditorState, EditorStateView, Mode};
use crate::search::first_index;
use crate::viewport::{clamp_scroll, scroll_to_reveal_row, Viewport};
use crate::strings::{ascii_lowered, string_of_chars, string_push, trimmed};
use crate::text::text_chars;

verus! {

/// What an interface state holds, its text as chars.
#[verifier::ext_equal]
pub struct UiStateView {
    pub overlay: OverlayMode,
    pub new_document_filename_input: Seq<char>,
    pub palette_query: Seq<char>,
    pub palette_selected: usize,
    pub menu_selected: usize,
    pub list_selected: usize,
    pub start_menu_title_lines: Seq<Seq<char>>,
    pub mouse_enabled: bool,
    pub status_details: bool,
    pub chrome_hidden: bool,
    pub save_feedback: Option<Seq<char>>,
}

impl View for UiState {
    type V = UiStateView;

    open spec fn view(&self) -> UiStateView {
        UiStateView {
            overlay: self.overlay,
            new_document_filename_input: self.new_document_filename_input@,
            palette_query: self.palette_query@,
            palette_selected: self.palette_selected,
            menu_selected: self.menu_selected,
            list_selected: self.list_selected,
            start_menu_title_lines: Seq::new(
                self.start_menu_title_lines@.len(),
                |i: int| self.start_menu_title_lines@[i]@,
            ),
            mouse_enabled: self.mouse_enabled,
            status_details: self.status_details,
            chrome_hidden: self.chrome_hidden,
            save_feedback: match self.save_feedback {
                Some(s) => Some(s@),
                None => None,
            },
        }
    }
}

/// What an overlay asks the session to do after a key.
#[derive(Clone, Copy, Debug, PartialEq, Eq)]
pub enum OverlayAction {
    Execute(AppCommand),
    OpenSelectedRecent,
    OpenSelectedWriting,
    RetryConfiguration,
    CreateConfiguration,
    ConfirmNewDocumentBasename,
}

/// Longest new-document name that the filename prompt takes, in chars.
pub const MAX_FILENAME_INPUT: usize = 256;

/// The key opens help: F1, Ctrl+H or Ctrl+Backspace.
pub open spec fn help_key(key: KeyBinding) -> bool {
    key.code == KeyName::F(1) || (key.ctrl && (key.code == KeyName::Char('h') || key.code
        == KeyName::Backspace))
}

/// One step up a list, stopping at the top.
pub open spec fn step_up(n: usize) -> usize {
    if n == 0 {
        0
    } else {
        (n - 1) as usize
    }
}

/// One step down a list whose last index is `last`, stopping there.
pub open spec fn step_down(n: usize, last: usize) -> usize {
    if n < last {
        (n + 1) as usize
    } else {
        last
    }
}

/// Last index of a list of `len` items (0 for an empty list).
pub open spec fn last_of(len: nat) -> usize {
    if len == 0 {
        0
    } else {
        (len - 1) as usize
    }
}

/// `s` without its last char (unchanged when empty).
pub open spec fn popped(s: Seq<char>) -> Seq<char> {
    if s.len() == 0 {
        s
    } else {
        s.drop_last()
    }
}

pub open spec fn with_overlay(ui: UiStateView, m: OverlayMode) -> UiStateView {
    UiStateView { overlay: m, ..ui }
}

/// A key in the recent-documents or writing-folder list of `len` entries;
/// Enter asks for `open`.
pub open spec fn list_key_step(ui: UiStateView, key: KeyBinding, len: nat, open: OverlayAction) -> (
    UiStateView,
    Option<OverlayAction>,
) {
    if key.code == KeyName::Esc {
        (with_overlay(ui, OverlayMode::Menu), None)
    } else if key.code == KeyName::Up {
        (UiStateView { list_selected: step_up(ui.list_selected), ..ui }, None)
    } else if key.code == KeyName::Down {
        (UiStateView { list_selected: step_down(ui.list_selected, last_of(len)), ..ui }, None)
    } else if key.code == KeyName::Enter {
        (ui, Some(open))
    } else if help_key(key) {
        (with_overlay(ui, OverlayMode::Help), None)
    } else {
        (ui, None)
    }
}

/// A key in the start menu.
pub open spec fn menu_key_step(ui: UiStateView, key: KeyBinding) -> (UiStateView, Option<OverlayAction>) {
    let last = (command_list().len() - 1) as usize;
    if key.code == KeyName::Up {
        (UiStateView { menu_selected: step_up(ui.menu_selected), ..ui }, None)
    } else if key.code == KeyName::Down {
        (UiStateView { menu_selected: step_down(ui.menu_selected, last), ..ui }, None)
    } else if key.code == KeyName::Enter {
        let idx = if ui.menu_selected < last {
            ui.menu_selected
        } else {
            last
        };
        (ui, Some(OverlayAction::Execute(command_list()[idx as int].1)))
    } else {
        (ui, None)
    }
}

/// A key in the new-document filename prompt.
pub open spec fn filename_key_step(ui: UiStateView, key: KeyBinding) -> (UiStateView, Option<OverlayAction>) {
    if key.code == KeyName::Esc {
        (with_overlay(ui, OverlayMode::Menu), None)
    } else if key.code == KeyName::Enter {
        (ui, Some(OverlayAction::ConfirmNewDocumentBasename))
    } else if help_key(key) {
        (with_overlay(ui, OverlayMode::Help), None)
    } else if key.code == KeyName::Backspace {
        (UiStateView { new_document_filename_input: popped(ui.new_document_filename_input), ..ui }, None)
    } else {
        match key.code {
            KeyName::Char(c) => if ui.new_document_filename_input.len() < MAX_FILENAME_INPUT {
                (
                    UiStateView {
                        new_document_filename_input: ui.new_document_filename_input.push(c),
                        ..ui
                    },
                    None,
                )
            } else {
                (ui, None)
            },
            _ => (ui, None),
        }
    }
}

/// A key in the missing-configuration dialog.
pub open spec fn configuration_key_step(ui: UiStateView, key: KeyBinding) -> (
    UiStateView,
    Option<OverlayAction>,
) {
    if key.code == KeyName::Esc {
        (with_overlay(ui, OverlayMode::Menu), None)
    } else if key.code == KeyName::Enter || key.code == KeyName::Char('r') || key.code
        == KeyName::Char('R') {
        (ui, Some(OverlayAction::RetryConfiguration))
    } else if key.code == KeyName::Char('c') || key.code == KeyName::Char('C') {
        (ui, Some(OverlayAction::CreateConfiguration))
    } else if help_key(key) {
        (with_overlay(ui, OverlayMode::Help), None)
    } else {
        (ui, None)
    }
}

/// A key in the command palette.
pub open spec fn palette_key_step(ui: UiStateView, key: KeyBinding) -> (UiStateView, Option<OverlayAction>) {
    let items = palette_keep(command_list(), ascii_lowered(ui.palette_query));
    if key.code == KeyName::Esc {
        (with_overlay(ui, OverlayMode::Menu), None)
    } else if key.code == KeyName::Up {
        (UiStateView { palette_selected: step_up(ui.palette_selected), ..ui }, None)
    } else if key.code == KeyName::Down {
        if items.len() > 0 {
            (
                UiStateView {
                    palette_selected: step_down(ui.palette_selected, (items.len() - 1) as usize),
                    ..ui
                },
                None,
            )
        } else {
            (ui, None)
        }
    } else if key.code == KeyName::Enter {
        if ui.palette_selected < items.len() {
            (ui, Some(OverlayAction::Execute(items[ui.palette_selected as int].1)))
        } else {
            (ui, None)
        }
    } else if key.code == KeyName::Char('p') && key.ctrl {
        (with_overlay(ui, OverlayMode::NoOverlay), None)
    } else if help_key(key) {
        (with_overlay(ui, OverlayMode::Help), None)
    } else if key.code == KeyName::Backspace {
        (UiStateView { palette_query: popped(ui.palette_query), palette_selected: 0, ..ui }, None)
    } else {
        match key.code {
            KeyName::Char(c) => (
                UiStateView { palette_query: ui.palette_query.push(c), palette_selected: 0, ..ui },
                None,
            ),
            _ => (ui, None),
        }
    }
}

/// What a key does to the interface while an overlay is shown, and what it
/// asks for; `recent_len` and `writing_len` are the lengths of the two lists.
pub open spec fn overlay_key_step(ui: UiStateView, key: KeyBinding, recent_len: nat, writing_len: nat) -> (
    UiStateView,
    Option<OverlayAction>,
) {
    match ui.overlay {
        OverlayMode::NoOverlay => (ui, None),
        OverlayMode::Help => if key.code == KeyName::Esc || help_key(key) {
            (with_overlay(ui, OverlayMode::Menu), None)
        } else {
            (ui, None)
        },
        OverlayMode::Menu => menu_key_step(ui, key),
        OverlayMode::RecentDocuments => list_key_step(
            ui,
            key,
            recent_len,
            OverlayAction::OpenSelectedRecent,
        ),
        OverlayMode::WritingFolder => list_key_step(
            ui,
            key,
            writing_len,
            OverlayAction::OpenSelectedWriting,
        ),
        OverlayMode::NewDocumentFilename => filename_key_step(ui, key),
        OverlayMode::Configuration => configuration_key_step(ui, key),
        OverlayMode::CommandPalette => palette_key_step(ui, key),
    }
}

fn index_up(n: usize) -> (r: usize)
    ensures
        r == step_up(n),
{
    if n == 0 {
        0
    } else {
        n - 1
    }
}

fn index_down(n: usize, last: usize) -> (r: usize)
    ensures
        r == step_down(n, last),
{
    if n < last {
        n + 1
    } else {
        last
    }
}

/// Drops the last char of `s`, if any.
pub fn pop_char(s: &mut String)
    ensures
        final(s)@ == popped(old(s)@),
{
    let v = text_chars(s.as_str());
    if v.len() == 0 {
        return ;
    }
    let mut w: Vec<char> = Vec::new();
    let last = v.len() - 1;
    let mut i: usize = 0;
    while i < last
        invariant
            v@ == old(s)@,
            last == v@.len() - 1,
            i <= last,
            w@ == v@.take(i as int),
        decreases v@.len() - i,
    {
        w.push(v[i]);
        assert(w@ =~= v@.take(i + 1));
        i = i + 1;
    }
    assert(w@ =~= v@.drop_last());
    *s = string_of_chars(&w);
}

fn list_key(key: KeyBinding, ui_state: &mut UiState, len: usize, open: OverlayAction) -> (r: Option<
    OverlayAction,
>)
    ensures
        final(ui_state)@ == list_key_step(old(ui_state)@, key, len as nat, open).0,
        r == list_key_step(old(ui_state)@, key, len as nat, open).1,
{
    if key.code == KeyName::Esc {
        ui_state.overlay = OverlayMode::Menu;
        None
    } else if key.code == KeyName::Up {
        ui_state.list_selected = index_up(ui_state.list_selected);
        None
    } else if key.code == KeyName::Down {
        let last = if len == 0 {
            0
        } else {
            len - 1
        };
        ui_state.list_selected = index_down(ui_state.list_selected, last);
        None
    } else if key.code == KeyName::Enter {
        Some(open)
    } else if key_opens_help(key) {
        ui_state.overlay = OverlayMode::Help;
        None
    } else {
        None
    }
}

fn menu_key(key: KeyBinding, ui_state: &mut UiState) -> (r: Option<OverlayAction>)
    ensures
        final(ui_state)@ == menu_key_step(old(ui_state)@, key).0,
        r == menu_key_step(old(ui_state)@, key).1,
{
    let items = command_items();
    assert(items@.len() == items_view(items@).len());
    let last = items.len() - 1;
    if key.code == KeyName::Up {
        ui_state.menu_selected = index_up(ui_state.menu_selected);
        None
    } else if key.code == KeyName::Down {
        ui_state.menu_selected = index_down(ui_state.menu_selected, last);
        None
    } else if key.code == KeyName::Enter {
        let idx = if ui_state.menu_selected < last {
            ui_state.menu_selected
        } else {
            last
        };
        assert(items_view(items@)[idx as int].1 == items@[idx as int].1);
        Some(OverlayAction::Execute(items[idx].1))
    } else {
        None
    }
}

fn filename_key(key: KeyBinding, ui_state: &mut UiState) -> (r: Option<OverlayAction>)
    ensures
        final(ui_state)@ == filename_key_step(old(ui_state)@, key).0,
        r == filename_key_step(old(ui_state)@, key).1,
{
    if key.code == KeyName::Esc {
        ui_state.overlay = OverlayMode::Menu;
        None
    } else if key.code == KeyName::Enter {
        Some(OverlayAction::ConfirmNewDocumentBasename)
    } else if key_opens_help(key) {
        ui_state.overlay = OverlayMode::Help;
        None
    } else if key.code == KeyName::Backspace {
        pop_char(&mut ui_state.new_document_filename_input);
        None
    } else {
        match key.code {
            KeyName::Char(c) => {
                let n = text_chars(ui_state.new_document_filename_input.as_str()).len();
                if n < MAX_FILENAME_INPUT {
                    string_push(&mut ui_state.new_document_filename_input, c);
                }
                None
            },
            _ => None,
        }
    }
}

fn configuration_key(key: KeyBinding, ui_state: &mut UiState) -> (r: Option<OverlayAction>)
    ensures
        final(ui_state)@ == configuration_key_step(old(ui_state)@, key).0,
        r == configuration_key_step(old(ui_state)@, key).1,
{
    if key.code == KeyName::Esc {
        ui_state.overlay = OverlayMode::Menu;
        None
    } else if key.code == KeyName::Enter || key.code == KeyName::Char('r') || key.code
        == KeyName::Char('R') {
        Some(OverlayAction::RetryConfiguration)
    } else if key.code == KeyName::Char('c') || key.code == KeyName::Char('C') {
        Some(OverlayAction::CreateConfiguration)
    } else if key_opens_help(key) {
        ui_state.overlay = OverlayMode::Help;
        None
    } else {
        None
    }
}

fn palette_key(key: KeyBinding, ui_state: &mut UiState) -> (r: Option<OverlayAction>)
    ensures
        final(ui_state)@ == palette_key_step(old(ui_state)@, key).0,
        r == palette_key_step(old(ui_state)@, key).1,
{
    let ghost items = palette_keep(command_list(), ascii_lowered(ui_state.palette_query@));
    if key.code == KeyName::Esc {
        ui_state.overlay = OverlayMode::Menu;
        None
    } else if key.code == KeyName::Up {
        ui_state.palette_selected = index_up(ui_state.palette_selected);
        None
    } else if key.code == KeyName::Down {
        let filtered = filtered_palette_items(ui_state.palette_query.as_str());
        assert(filtered@.len() == items.len());
        let len = filtered.len();
        if len > 0 {
            ui_state.palette_selected = index_down(ui_state.palette_selected, len - 1);
        }
        None
    } else if key.code == KeyName::Enter {
        let filtered = filtered_palette_items(ui_state.palette_query.as_str());
        assert(filtered@.len() == items.len());
        if ui_state.palette_selected < filtered.len() {
            assert(items[ui_state.palette_selected as int].1
                == filtered@[ui_state.palette_selected as int].1);
            Some(OverlayAction::Execute(filtered[ui_state.palette_selected].1))
        } else {
            None
        }
    } else if key.code == KeyName::Char('p') && key.ctrl {
        ui_state.overlay = OverlayMode::NoOverlay;
        None
    } else if key_opens_help(key) {
        ui_state.overlay = OverlayMode::Help;
        None
    } else if key.code == KeyName::Backspace {
        pop_char(&mut ui_state.palette_query);
        ui_state.palette_selected = 0;
        None
    } else {
        match key.code {
            KeyName::Char(c) => {
                string_push(&mut ui_state.palette_query, c);
                ui_state.palette_selected = 0;
                None
            },
            _ => None,
        }
    }
}

/// Handles a key while an overlay is shown; `None` when the key is not the
/// overlay's (always, when no overlay is shown).
pub fn handle_overlay_key(key: KeyBinding, ui_state: &mut UiState, app_state: &AppState) -> (r:
    Option<OverlayAction>)
    ensures
        final(ui_state)@ == overlay_key_step(
            old(ui_state)@,
            key,
            app_state.recent_documents@.len(),
            app_state.writing_folder_entries@.len(),
        ).0,
        r == overlay_key_step(
            old(ui_state)@,
            key,
            app_state.recent_documents@.len(),
            app_state.writing_folder_entries@.len(),
        ).1,
{
    match ui_state.overlay {
        OverlayMode::NoOverlay => None,
        OverlayMode::Help => {
            if key.code == KeyName::Esc || key_opens_help(key) {
                ui_state.overlay = OverlayMode::Menu;
            }
            None
        },
        OverlayMode::Menu => menu_key(key, ui_state),
        OverlayMode::RecentDocuments => list_key(
            key,
            ui_state,
            app_state.recent_documents.len(),
            OverlayAction::OpenSelectedRecent,
        ),
        OverlayMode::WritingFolder => list_key(
            key,
            ui_state,
            app_state.writing_folder_entries.len(),
            OverlayAction::OpenSelectedWriting,
        ),
        OverlayMode::NewDocumentFilename => filename_key(key, ui_state),
        OverlayMode::Configuration => configuration_key(key, ui_state),
        OverlayMode::CommandPalette => palette_key(key, ui_state),
    }
}

/// The session around the document being edited.
#[derive(Debug)]
pub struct AppState {
    pub current_document_path: Option<PathBuf>,
    pub recent_documents: Vec<PathBuf>,
    pub writing_folder_entries: Vec<PathBuf>,
    /// When set and the Writing folder overlay is shown, replaces the usual empty-folder message.
    pub writing_folder_overlay_error: Option<String>,
    pub status_message: Option<String>,
    pub recovery_path: PathBuf,
    pub edit_counter: usize,
}

/// `PathBuf::new()`: the empty path.
#[verifier::external_body]
fn empty_path() -> PathBuf {
    PathBuf::new()
}

impl Default for AppState {
    fn default() -> (a: Self)
        ensures
            a.current_document_path is None,
            a.recent_documents@.len() == 0,
            a.writing_folder_entries@.len() == 0,
            a.writing_folder_overlay_error is None,
            a.status_message is None,
            a.edit_counter == 0,
    {
        AppState {
            current_document_path: None,
            recent_documents: Vec::new(),
            writing_folder_entries: Vec::new(),
            writing_folder_overlay_error: None,
            status_message: None,
            recovery_path: empty_path(),
            edit_counter: 0,
        }
    }
}

/// `new` is `old` with the status line set to `msg`.
pub open spec fn status_set(new: AppState, old: AppState, msg: Seq<char>) -> bool {
    &&& new.status_message matches Some(m) && m@ == msg
    &&& new == AppState { status_message: new.status_message, ..old }
}

/// Clears the status line.
pub fn clear_status(app_state: &mut AppState)
    ensures
        *final(app_state) == (AppState { status_message: None, ..*old(app_state) }),
{
    app_state.status_message = None;
}

/// Shows or hides the frame and status line; showing them says so on the
/// status line.
pub fn apply_toggle_chrome_hidden(ui_state: &mut UiState, app_state: &mut AppState)
    ensures
        final(ui_state)@ == (UiStateView { chrome_hidden: !old(ui_state).chrome_hidden, ..old(ui_state)@ }),
        final(ui_state).chrome_hidden ==> (*final(app_state) == *old(app_state)),
        !final(ui_state).chrome_hidden ==> status_set(
            *final(app_state),
            *old(app_state),
            "Chrome shown (Ctrl+K to hide)"@,
        ),
{
    ui_state.chrome_hidden = !ui_state.chrome_hidden;
    if !ui_state.chrome_hidden {
        app_state.status_message = Some("Chrome shown (Ctrl+K to hide)".to_string());
    }
}

/// `PathBuf == PathBuf`: named `path_equal`; a path compares equal to
/// itself.
#[verifier::external_body]
fn same_path(a: &PathBuf, b: &PathBuf) -> (r: bool)
    ensures
        r == path_equal(*a, *b),
        *a == *b ==> r,
{
    a == b
}

/// Most documents that the recent list keeps.
pub const MAX_RECENT_DOCS: usize = 12;

/// `s` cut to its first `n` entries when it is longer.
pub open spec fn at_most<T>(s: Seq<T>, n: int) -> Seq<T> {
    if s.len() <= n {
        s
    } else {
        s.take(n)
    }
}

/// The entries of `docs` that `==` does not find equal to `path`, in order.
pub open spec fn other_paths(docs: Seq<PathBuf>, path: PathBuf) -> Seq<PathBuf> {
    docs.filter(|q: PathBuf| !path_equal(q, path))
}

/// The recent documents after opening `path`: `path` first, then the other
/// entries that `==` does not find equal to it, at most `MAX_RECENT_DOCS` in all.
pub open spec fn recent_after(docs: Seq<PathBuf>, path: PathBuf) -> Seq<PathBuf> {
    seq![path] + at_most(other_paths(docs, path), MAX_RECENT_DOCS - 1)
}

/// Puts `path` first in the recent documents, drops the other entries equal
/// to it, and keeps at most `MAX_RECENT_DOCS`.
pub fn push_recent_document(app_state: &mut AppState, path: PathBuf)
    ensures
        final(app_state).recent_documents@ == recent_after(old(app_state).recent_documents@, path),
        1 <= final(app_state).recent_documents@.len() <= MAX_RECENT_DOCS,
        forall|i: int|
            1 <= i < final(app_state).recent_documents@.len()
                ==> #[trigger] final(app_state).recent_documents@[i] != path,
        *final(app_state) == (AppState {
            recent_documents: final(app_state).recent_documents,
            ..*old(app_state)
        }),
{
    let ghost orig = app_state.recent_documents@;
    let ghost pred = |q: PathBuf| !path_equal(q, path);
    let n = app_state.recent_documents.len();
    let mut rest: Vec<PathBuf> = Vec::new();
    std::mem::swap(&mut rest, &mut app_state.recent_documents);
    let mut out: Vec<PathBuf> = Vec::new();
    out.push(path);
    let mut i: usize = 0;
    proof {
        reveal(Seq::filter);
        assert(orig.take(0) =~= Seq::<PathBuf>::empty());
        assert(out@ =~= seq![path] + at_most(orig.take(0).filter(pred), MAX_RECENT_DOCS - 1));
    }
    while rest.len() > 0
        invariant
            rest@ == orig.skip(i as int),
            i <= orig.len(),
            orig.len() == n,
            pred == (|q: PathBuf| !path_equal(q, path)),
            out@ == seq![path] + at_most(orig.take(i as int).filter(pred), MAX_RECENT_DOCS - 1),
            forall|k: int| 1 <= k < out@.len() ==> #[trigger] out@[k] != path,
        decreases rest@.len(),
    {
        let p = rest.remove(0);
        assert(p == orig[i as int]);
        assert(rest@ =~= orig.skip(i + 1));
        let ghost f0 = orig.take(i as int).filter(pred);
        proof {
            reveal(Seq::filter);
            assert(orig.take(i + 1).drop_last() =~= orig.take(i as int));
            assert(orig.take(i + 1).last() == p);
        }
        let keep = !same_path(&p, &out[0]);
        if out.len() < MAX_RECENT_DOCS && keep {
            let ghost before = out@;
            out.push(p);
            proof {
                assert(orig.take(i + 1).filter(pred) == f0.push(p));
                assert(f0.len() < MAX_RECENT_DOCS - 1);
                assert(out@ =~= seq![path] + at_most(f0.push(p), MAX_RECENT_DOCS - 1));
            }
        } else {
            proof {
                if keep {
                    assert(orig.take(i + 1).filter(pred) == f0.push(p));
                    assert(at_most(f0.push(p), MAX_RECENT_DOCS - 1) =~= at_most(f0, MAX_RECENT_DOCS - 1));
                } else {
                    assert(orig.take(i + 1).filter(pred) == f0);
                }
            }
        }
        i = i + 1;
    }
    proof {
        assert(orig.take(i as int) =~= orig);
    }
    app_state.recent_documents = out;
}

/// The message shown when Enter finds no entry selected in the Recent list
/// (`recent`) or in the Writing folder list.
pub open spec fn nothing_selected_message(recent: bool) -> Seq<char> {
    if recent {
        "No recent document selected. Use Up/Down then Enter."@
    } else {
        "No document selected. Use Up/Down then Enter."@
    }
}

/// Enter in the Recent list (`recent`) or the Writing folder list: closes
/// the overlay and gives a copy of the selected entry, or says that nothing
/// is selected.
pub fn pick_listed_document(ui_state: &mut UiState, app_state: &mut AppState, recent: bool) -> (r:
    Option<PathBuf>)
    ensures
        final(ui_state)@ == (UiStateView { overlay: OverlayMode::NoOverlay, ..old(ui_state)@ }),
        ({
            let list = if recent {
                old(app_state).recent_documents@
            } else {
                old(app_state).writing_folder_entries@
            };
            let i = old(ui_state).list_selected as int;
            &&& i < list.len() ==> (r matches Some(p) && path_equal(p, list[i]) && *final(app_state)
                == *old(app_state))
            &&& i >= list.len() ==> (r is None && status_set(
                *final(app_state),
                *old(app_state),
                nothing_selected_message(recent),
            ))
        }),
{
    let i = ui_state.list_selected;
    ui_state.overlay = OverlayMode::NoOverlay;
    let picked = if recent {
        if i < app_state.recent_documents.len() {
            Some(app_state.recent_documents[i].clone())
        } else {
            None
        }
    } else if i < app_state.writing_folder_entries.len() {
        Some(app_state.writing_folder_entries[i].clone())
    } else {
        None
    };
    if picked.is_none() {
        if recent {
            app_state.status_message = Some(
                "No recent document selected. Use Up/Down then Enter.".to_string(),
            );
        } else {
            app_state.status_message = Some("No document selected. Use Up/Down then Enter.".to_string());
        }
    }
    picked
}

/// How many edits pass between two recovery snapshots.
pub const SNAPSHOT_EVERY_EDITS: usize = 40;

/// Counts an edit; whether a recovery snapshot is due now.
pub fn record_edit(app_state: &mut AppState) -> (snapshot_due: bool)
    ensures
        final(app_state).edit_counter == if old(app_state).edit_counter == usize::MAX {
            usize::MAX
        } else {
            (old(app_state).edit_counter + 1) as usize
        },
        snapshot_due == (final(app_state).edit_counter % SNAPSHOT_EVERY_EDITS == 0),
        *final(app_state) == (AppState {
            edit_counter: final(app_state).edit_counter,
            ..*old(app_state)
        }),
{
    if app_state.edit_counter < usize::MAX {
        app_state.edit_counter = app_state.edit_counter + 1;
    }
    app_state.edit_counter % SNAPSHOT_EVERY_EDITS == 0
}

/// Where the start-menu title art `name` is kept: `titletext/<name>`.
pub fn title_text_path_for(name: &str) -> (p: PathBuf)
    ensures
        p == crate::config::path_under_spec("titletext"@, name@),
{
    path_under("titletext", name)
}

/// `Path::exists`: whether something is at `p` on disk now. Nothing is
/// stated of the answer, which the file system decides.
#[verifier::external_body]
fn path_exists(p: &PathBuf) -> bool {
    p.exists()
}

/// The text that `Path::display` shows of `p`.
pub uninterp spec fn displayed_path(p: PathBuf) -> Seq<char>;

/// `Path::display`, written out: `displayed_path` of `p`.
#[verifier::external_body]
fn path_text(p: &PathBuf) -> (s: String)
    ensures
        s@ == displayed_path(*p),
{
    p.display().to_string()
}

/// `s` ends with `t`.
pub open spec fn ends_with(s: Seq<char>, t: Seq<char>) -> bool {
    s.len() >= t.len() && s.skip(s.len() - t.len()) == t
}

/// Why a new document cannot be made at `full`, which already exists.
pub open spec fn exists_message(full: PathBuf) -> Seq<char> {
    displayed_path(full) + " already exists. Choose another basename."@
}

/// The outcome of New Document at `full`, given whether something already
/// `exists` there: the path, or the message that asks for another name.
pub fn new_document_outcome(full: PathBuf, exists: bool) -> (r: Result<PathBuf, String>)
    ensures
        !exists ==> r == Ok::<PathBuf, String>(full),
        exists ==> (r matches Err(m) && m@ == exists_message(full)),
{
    if exists {
        let mut m = path_text(&full);
        m.append(" already exists. Choose another basename.");
        return Err(m);
    }
    Ok(full)
}

/// The path of the new document named `raw_input` in `writing_root`.
pub open spec fn new_document_path(writing_root: PathBuf, raw_input: Seq<char>) -> PathBuf {
    joined_path(writing_root, new_basename(raw_input)->Ok_0)
}

/// The path for a new document named `raw_input` in `writing_root`: the
/// name must pass the basename rules, and nothing may be at the path yet
/// (which the file system answers).
pub fn compose_new_document_path(writing_root: &PathBuf, raw_input: &str) -> (r: Result<
    PathBuf,
    String,
>)
    ensures
        match new_basename(raw_input@) {
            Err(m) => r matches Err(x) && x@ == m,
            Ok(_) => {
                &&& r matches Ok(p) ==> p == new_document_path(*writing_root, raw_input@)
                &&& r matches Err(x) ==> x@ == exists_message(
                    new_document_path(*writing_root, raw_input@),
                )
            },
        },
{
    let base = finalize_new_document_basename(raw_input)?;
    let full = path_join(writing_root, base.as_str());
    let exists = path_exists(&full);
    new_document_outcome(full, exists)
}

/// Outside work that a command waits for.
#[derive(Clone, Copy, Debug, PartialEq, Eq)]
pub enum CommandNeed {
    /// The command is done.
    Done,
    /// Save the current document.
    SaveDocument,
    /// Check the writing folder, then `finish_new_document_check`.
    CheckWritingFolder,
    /// Check and list the writing folder, then `finish_writing_folder`.
    ListWritingFolder,
    /// Open the configuration file, or `finish_configuration_missing`.
    OpenConfiguration,
}

/// What command `cmd` waits for.
pub open spec fn command_need(cmd: AppCommand) -> CommandNeed {
    match cmd {
        AppCommand::Save => CommandNeed::SaveDocument,
        AppCommand::NewDocument => CommandNeed::CheckWritingFolder,
        AppCommand::WritingFolder => CommandNeed::ListWritingFolder,
        AppCommand::Configuration => CommandNeed::OpenConfiguration,
        _ => CommandNeed::Done,
    }
}

/// The interface once command `cmd` has started.
pub open spec fn command_ui(cmd: AppCommand, ui: UiStateView) -> UiStateView {
    let closed = UiStateView { overlay: OverlayMode::NoOverlay, save_feedback: None, ..ui };
    match cmd {
        AppCommand::Save => ui,
        AppCommand::NewDocument => ui,
        AppCommand::ShowHelp => with_overlay(closed, OverlayMode::Help),
        AppCommand::RecentDocuments => UiStateView {
            list_selected: 0,
            overlay: OverlayMode::RecentDocuments,
            ..closed
        },
        AppCommand::WritingFolder => UiStateView {
            list_selected: 0,
            overlay: OverlayMode::WritingFolder,
            ..closed
        },
        AppCommand::Configuration => closed,
    }
}

/// The status line that command `cmd` shows on starting, with `recent_len`
/// recent documents (`None`: the status line is left as it was).
pub open spec fn command_status(cmd: AppCommand, recent_len: nat) -> Option<Seq<char>> {
    match cmd {
        AppCommand::ShowHelp => Some("Opened help."@),
        AppCommand::RecentDocuments => if recent_len == 0 {
            Some("No recent documents yet. Open one from Writing folder first."@)
        } else {
            Some("Select a recent document and press Enter."@)
        },
        _ => None,
    }
}

/// Starts command `cmd`: does what needs no outside work and says what the
/// rest waits for.
pub fn begin_command(cmd: AppCommand, ui_state: &mut UiState, app_state: &mut AppState) -> (need:
    CommandNeed)
    ensures
        need == command_need(cmd),
        final(ui_state)@ == command_ui(cmd, old(ui_state)@),
        match command_status(cmd, old(app_state).recent_documents@.len()) {
            Some(m) => status_set(*final(app_state), *old(app_state), m),
            None => *final(app_state) == *old(app_state),
        },
{
    match cmd {
        AppCommand::Save => {
            return CommandNeed::SaveDocument;
        },
        AppCommand::NewDocument => {
            return CommandNeed::CheckWritingFolder;
        },
        _ => {},
    }
    ui_state.overlay = OverlayMode::NoOverlay;
    ui_state.save_feedback = None;
    match cmd {
        AppCommand::ShowHelp => {
            ui_state.overlay = OverlayMode::Help;
            app_state.status_message = Some("Opened help.".to_string());
            CommandNeed::Done
        },
        AppCommand::RecentDocuments => {
            ui_state.list_selected = 0;
            ui_state.overlay = OverlayMode::RecentDocuments;
            if app_state.recent_documents.len() == 0 {
                app_state.status_message = Some(
                    "No recent documents yet. Open one from Writing folder first.".to_string(),
                );
            } else {
                app_state.status_message = Some(
                    "Select a recent document and press Enter.".to_string(),
                );
            }
            CommandNeed::Done
        },
        AppCommand::WritingFolder => {
            ui_state.list_selected = 0;
            ui_state.overlay = OverlayMode::WritingFolder;
            CommandNeed::ListWritingFolder
        },
        _ => CommandNeed::OpenConfiguration,
    }
}

/// Shows `msg` on the status line and in the feedback dialog.
pub fn report_feedback(ui_state: &mut UiState, app_state: &mut AppState, msg: String)
    ensures
        final(ui_state)@ == (UiStateView { save_feedback: Some(msg@), ..old(ui_state)@ }),
        status_set(*final(app_state), *old(app_state), msg@),
{
    app_state.status_message = Some(msg.clone());
    ui_state.save_feedback = Some(msg);
}

/// Ends New Document once the writing folder was checked: on `Err(msg)` the
/// message is shown, else the filename prompt opens.
pub fn finish_new_document_check(
    ui_state: &mut UiState,
    app_state: &mut AppState,
    check: Result<(), String>,
)
    ensures
        match check {
            Err(msg) => {
                &&& final(ui_state)@ == (UiStateView { save_feedback: Some(msg@), ..old(ui_state)@ })
                &&& status_set(*final(app_state), *old(app_state), msg@)
            },
            Ok(_) => {
                &&& final(ui_state)@ == (UiStateView {
                    new_document_filename_input: Seq::empty(),
                    overlay: OverlayMode::NewDocumentFilename,
                    ..old(ui_state)@
                })
                &&& status_set(
                    *final(app_state),
                    *old(app_state),
                    "Enter basename. Extension optional (.md if omitted); .md/.txt/.toml only."@,
                )
            },
        },
{
    match check {
        Err(msg) => report_feedback(ui_state, app_state, msg),
        Ok(()) => {
            ui_state.new_document_filename_input = String::new();
            ui_state.overlay = OverlayMode::NewDocumentFilename;
            app_state.status_message = Some(
                "Enter basename. Extension optional (.md if omitted); .md/.txt/.toml only.".to_string(),
            );
        },
    }
}

/// Ends Writing Folder once the folder `root_text` was checked and listed.
pub fn finish_writing_folder(
    app_state: &mut AppState,
    listing: Result<Vec<PathBuf>, String>,
    root_text: &str,
)
    ensures
        final(app_state).current_document_path == old(app_state).current_document_path,
        final(app_state).recent_documents == old(app_state).recent_documents,
        final(app_state).recovery_path == old(app_state).recovery_path,
        final(app_state).edit_counter == old(app_state).edit_counter,
        match listing {
            Err(msg) => {
                &&& final(app_state).writing_folder_overlay_error matches Some(e) && e@ == msg@
                &&& final(app_state).writing_folder_entries@.len() == 0
                &&& final(app_state).status_message matches Some(s) && s@ == msg@
            },
            Ok(entries) => {
                &&& final(app_state).writing_folder_overlay_error is None
                &&& final(app_state).writing_folder_entries == entries
                &&& final(app_state).status_message matches Some(s) && s@ == if entries@.len()
                    == 0 {
                    "No .md/.txt/.toml files in "@ + root_text@
                        + ". Add files or set [paths].writing_folder in config."@
                } else {
                    "Select a document and press Enter to open."@
                }
            },
        },
{
    match listing {
        Err(msg) => {
            app_state.writing_folder_overlay_error = Some(msg.clone());
            app_state.writing_folder_entries = Vec::new();
            app_state.status_message = Some(msg);
        },
        Ok(entries) => {
            app_state.writing_folder_overlay_error = None;
            let empty = entries.len() == 0;
            app_state.writing_folder_entries = entries;
            if empty {
                let mut m = "No .md/.txt/.toml files in ".to_string();
                m.append(root_text);
                m.append(". Add files or set [paths].writing_folder in config.");
                app_state.status_message = Some(m);
            } else {
                app_state.status_message = Some(
                    "Select a document and press Enter to open.".to_string(),
                );
            }
        },
    }
}

/// Ends Configuration when no file is at `cfg_path_text`: the dialog opens.
pub fn finish_configuration_missing(
    ui_state: &mut UiState,
    app_state: &mut AppState,
    cfg_path_text: &str,
)
    ensures
        final(ui_state)@ == with_overlay(old(ui_state)@, OverlayMode::Configuration),
        status_set(
            *final(app_state),
            *old(app_state),
            "Configuration file not found at "@ + cfg_path_text@
                + ". Run scripts/install-config.sh (from the repo) or press C to create here. R: retry, Esc: close."@,
        ),
{
    ui_state.overlay = OverlayMode::Configuration;
    let mut m = "Configuration file not found at ".to_string();
    m.append(cfg_path_text);
    m.append(
        ". Run scripts/install-config.sh (from the repo) or press C to create here. R: retry, Esc: close.",
    );
    app_state.status_message = Some(m);
}

/// The editor state for a freshly loaded `doc`: caret at its start, no
/// selection, scrolled to the top.
pub open spec fn fresh_state(doc: DocumentView) -> EditorStateView {
    EditorStateView {
        cursor: normalized(CursorView { block_index: 0, inline_path: Seq::empty(), offset: 0 }, doc),
        selection: None,
        scroll_top: 0,
    }
}

/// A fresh editor state for `doc`.
pub fn fresh_editor_state(doc: &Document) -> (st: EditorState)
    ensures
        st@ == fresh_state(doc@),
{
    let mut st = EditorState {
        cursor: Cursor::new(0, Vec::new(), 0),
        mode: Mode::Insert,
        selection: None,
        scroll_top: 0,
    };
    st.cursor.normalize(doc);
    st
}

/// Loads the text `text` of the file `path` (shown as `path_text`) as the
/// document, makes it the current and most recent document, and says so.
pub fn document_opened(
    doc: &mut Document,
    state: &mut EditorState,
    app_state: &mut AppState,
    path: PathBuf,
    text: &str,
    path_text: &str,
)
    ensures
        final(doc)@ == text_document(text@),
        final(state)@ == fresh_state(final(doc)@),
        final(app_state).current_document_path == Some(path),
        path_equal(final(app_state).recent_documents@[0], path),
        final(app_state).recent_documents@ == recent_after(
            old(app_state).recent_documents@,
            final(app_state).recent_documents@[0],
        ),
        final(app_state).status_message matches Some(s) && s@ == "Opened "@ + path_text@,
        *final(app_state) == (AppState {
            current_document_path: final(app_state).current_document_path,
            recent_documents: final(app_state).recent_documents,
            status_message: final(app_state).status_message,
            ..*old(app_state)
        }),
{
    *doc = plain_text_to_document(text);
    *state = fresh_editor_state(doc);
    let copy = path.clone();
    push_recent_document(app_state, copy);
    app_state.current_document_path = Some(path);
    let mut m = "Opened ".to_string();
    m.append(path_text);
    app_state.status_message = Some(m);
}

/// Restores the recovery snapshot `text` unless it is blank; whether it did.
pub fn restore_snapshot(
    doc: &mut Document,
    state: &mut EditorState,
    app_state: &mut AppState,
    text: &str,
) -> (restored: bool)
    ensures
        restored == (trimmed(text@).len() > 0),
        !restored ==> {
            &&& final(doc)@ == old(doc)@
            &&& final(state)@ == old(state)@
            &&& *final(app_state) == *old(app_state)
        },
        restored ==> {
            &&& final(doc)@ == text_document(text@)
            &&& final(state)@ == fresh_state(final(doc)@)
            &&& status_set(*final(app_state), *old(app_state), "Recovered unsaved snapshot"@)
        },
{
    let v = text_chars(text);
    let t = crate::strings::trim_chars(&v);
    if t.len() == 0 {
        return false;
    }
    *doc = plain_text_to_document(text);
    *state = fresh_editor_state(doc);
    app_state.status_message = Some("Recovered unsaved snapshot".to_string());
    true
}

/// Starts New Document's last step with the name typed in the prompt: on a
/// good name a new empty document takes its path, else the reason is shown.
pub fn confirm_new_document(
    doc: &mut Document,
    state: &mut EditorState,
    ui_state: &mut UiState,
    app_state: &mut AppState,
    writing_root: &PathBuf,
) -> (created: bool)
    ensures
        new_basename(old(ui_state).new_document_filename_input@) matches Err(m) ==> {
            &&& !created
            &&& final(doc)@ == old(doc)@
            &&& final(state)@ == old(state)@
            &&& final(ui_state)@ == old(ui_state)@
            &&& status_set(*final(app_state), *old(app_state), m)
        },
        new_basename(old(ui_state).new_document_filename_input@) is Ok ==> {
            let p = new_document_path(*writing_root, old(ui_state).new_document_filename_input@);
            ||| {
                &&& !created
                &&& final(doc)@ == old(doc)@
                &&& final(state)@ == old(state)@
                &&& final(ui_state)@ == old(ui_state)@
                &&& status_set(*final(app_state), *old(app_state), exists_message(p))
            }
            ||| {
                &&& created
                &&& final(doc)@.blocks == seq![empty_paragraph()]
                &&& final(state)@ == fresh_state(final(doc)@)
                &&& final(ui_state)@ == (UiStateView {
                    new_document_filename_input: Seq::empty(),
                    overlay: OverlayMode::NoOverlay,
                    ..old(ui_state)@
                })
                &&& final(app_state).current_document_path == Some(p)
                &&& path_equal(final(app_state).recent_documents@[0], p)
                &&& final(app_state).recent_documents@ == recent_after(
                    old(app_state).recent_documents@,
                    final(app_state).recent_documents@[0],
                )
                &&& final(app_state).status_message matches Some(s) && s@ == "New document: "@
                    + displayed_path(p) + " (Ctrl+S to save.)"@
                &&& *final(app_state) == (AppState {
                    current_document_path: final(app_state).current_document_path,
                    recent_documents: final(app_state).recent_documents,
                    status_message: final(app_state).status_message,
                    ..*old(app_state)
                })
            }
        },
{
    match compose_new_document_path(writing_root, ui_state.new_document_filename_input.as_str()) {
        Err(msg) => {
            app_state.status_message = Some(msg);
            false
        },
        Ok(path) => {
            let shown = path_text(&path);
            *doc = Document::new();
            *state = fresh_editor_state(doc);
            let copy = path.clone();
            push_recent_document(app_state, copy);
            app_state.current_document_path = Some(path);
            ui_state.new_document_filename_input = String::new();
            ui_state.overlay = OverlayMode::NoOverlay;
            let mut m = "New document: ".to_string();
            m.append(shown.as_str());
            m.append(" (Ctrl+S to save.)");
            app_state.status_message = Some(m);
            true
        },
    }
}

/// Whether there is a file to save to; when not, says how to get one.
pub fn check_save_target(ui_state: &mut UiState, app_state: &mut AppState) -> (has_path: bool)
    ensures
        has_path == old(app_state).current_document_path is Some,
        has_path ==> {
            &&& final(ui_state)@ == old(ui_state)@
            &&& *final(app_state) == *old(app_state)
        },
        !has_path ==> {
            let m = "No file path. Open a document from Writing folder in the main menu (Ctrl+M) first."@;
            &&& final(ui_state)@ == (UiStateView { save_feedback: Some(m), ..old(ui_state)@ })
            &&& status_set(*final(app_state), *old(app_state), m)
        },
{
    if app_state.current_document_path.is_none() {
        report_feedback(
            ui_state,
            app_state,
            "No file path. Open a document from Writing folder in the main menu (Ctrl+M) first.".to_string(),
        );
        return false;
    }
    true
}

/// What a key does in the editor when no overlay takes it.
#[derive(Clone, Copy, Debug, PartialEq, Eq)]
pub enum EditorKeyAction {
    /// The keymap remaps the key.
    Remap(RemapAction),
    Quit,
    OpenPalette,
    OpenMenu,
    Save,
    OpenHelp,
    ToggleStatusDetails,
    /// Type the char, the given number of times.
    Insert(char, usize),
    Backspace,
    NewLine,
    PageUp,
    PageDown,
    /// Move the caret, extending the selection when set.
    Move(CursorMove, bool),
    Ignore,
}

/// What `key` does in the editor: a remap of the keymap `remaps` first
/// (never when `other_mods`, modifiers that no binding names, were held),
/// then the built-in keys; Tab types a tab or `tab_width` spaces.
pub open spec fn editor_key_spec(
    key: KeyBinding,
    other_mods: bool,
    remaps: Seq<(KeyBinding, RemapAction)>,
    editor: EditorConfig,
) -> EditorKeyAction {
    let found = first_index(remaps.len() as int, bound_to(remaps, key));
    if !other_mods && found is Some {
        EditorKeyAction::Remap(remaps[found->0].1)
    } else if key.ctrl && key.code == KeyName::Char('q') {
        EditorKeyAction::Quit
    } else if key.ctrl && key.code == KeyName::Char('p') {
        EditorKeyAction::OpenPalette
    } else if key.ctrl && key.code == KeyName::Char('m') {
        EditorKeyAction::OpenMenu
    } else if key.ctrl && key.code == KeyName::Char('s') {
        EditorKeyAction::Save
    } else if help_key(key) {
        EditorKeyAction::OpenHelp
    } else {
        match key.code {
            KeyName::Esc => EditorKeyAction::OpenMenu,
            KeyName::F(n) => if n == 2 {
                EditorKeyAction::ToggleStatusDetails
            } else {
                EditorKeyAction::Ignore
            },
            KeyName::Char(c) => EditorKeyAction::Insert(c, 1),
            KeyName::Backspace => EditorKeyAction::Backspace,
            KeyName::Enter => EditorKeyAction::NewLine,
            KeyName::Tab => if editor.hard_tabs {
                EditorKeyAction::Insert('\t', 1)
            } else {
                EditorKeyAction::Insert(' ', editor.tab_width)
            },
            KeyName::PageUp => EditorKeyAction::PageUp,
            KeyName::PageDown => EditorKeyAction::PageDown,
            KeyName::Left => EditorKeyAction::Move(CursorMove::Left, key.shift),
            KeyName::Right => EditorKeyAction::Move(CursorMove::Right, key.shift),
            KeyName::Up => EditorKeyAction::Move(CursorMove::Up, key.shift),
            KeyName::Down => EditorKeyAction::Move(CursorMove::Down, key.shift),
            KeyName::Home => EditorKeyAction::Move(CursorMove::Home, key.shift),
            KeyName::End => EditorKeyAction::Move(CursorMove::End, key.shift),
            _ => EditorKeyAction::Ignore,
        }
    }
}

/// What `key` does in the editor; `other_modifiers` tells that modifiers
/// other than Ctrl, Shift and Alt were held.
pub fn editor_key_action(
    key: KeyBinding,
    other_modifiers: bool,
    keymap: &RuntimeKeymap,
    editor: &EditorConfig,
) -> (a: EditorKeyAction)
    ensures
        a == editor_key_spec(key, other_modifiers, keymap.bindings@, *editor),
{
    if !other_modifiers {
        if let Some(r) = lookup_remap_action(keymap, key) {
            return EditorKeyAction::Remap(r);
        }
    }
    if key.ctrl && key.code == KeyName::Char('q') {
        EditorKeyAction::Quit
    } else if key.ctrl && key.code == KeyName::Char('p') {
        EditorKeyAction::OpenPalette
    } else if key.ctrl && key.code == KeyName::Char('m') {
        EditorKeyAction::OpenMenu
    } else if key.ctrl && key.code == KeyName::Char('s') {
        EditorKeyAction::Save
    } else if key_opens_help(key) {
        EditorKeyAction::OpenHelp
    } else {
        match key.code {
            KeyName::Esc => EditorKeyAction::OpenMenu,
            KeyName::F(n) => if n == 2 {
                EditorKeyAction::ToggleStatusDetails
            } else {
                EditorKeyAction::Ignore
            },
            KeyName::Char(c) => EditorKeyAction::Insert(c, 1),
            KeyName::Backspace => EditorKeyAction::Backspace,
            KeyName::Enter => EditorKeyAction::NewLine,
            KeyName::Tab => if editor.hard_tabs {
                EditorKeyAction::Insert('\t', 1)
            } else {
                EditorKeyAction::Insert(' ', editor.tab_width)
            },
            KeyName::PageUp => EditorKeyAction::PageUp,
            KeyName::PageDown => EditorKeyAction::PageDown,
            KeyName::Left => EditorKeyAction::Move(CursorMove::Left, key.shift),
            KeyName::Right => EditorKeyAction::Move(CursorMove::Right, key.shift),
            KeyName::Up => EditorKeyAction::Move(CursorMove::Up, key.shift),
            KeyName::Down => EditorKeyAction::Move(CursorMove::Down, key.shift),
            KeyName::Home => EditorKeyAction::Move(CursorMove::Home, key.shift),
            KeyName::End => EditorKeyAction::Move(CursorMove::End, key.shift),
            _ => EditorKeyAction::Ignore,
        }
    }
}

/// The edit that a typing action makes, and how many times.
pub open spec fn typing_of(a: EditorKeyAction) -> (EditOpView, nat) {
    match a {
        EditorKeyAction::Insert(c, n) => (EditOpView::InsertChar(c), n as nat),
        EditorKeyAction::Backspace => (EditOpView::Backspace, 1),
        _ => (EditOpView::NewLine, 1),
    }
}

/// `n` edits `op` from `doc` and `st`, with the edit counter at `counter`:
/// each edit that changes the document counts; when the count reaches a
/// multiple of `SNAPSHOT_EVERY_EDITS` the text then is the snapshot. Gives
/// the document, the state, the count, the last snapshot, and whether any
/// edit changed the document.
pub open spec fn typed(
    doc: DocumentView,
    st: EditorStateView,
    counter: usize,
    op: EditOpView,
    n: nat,
) -> (DocumentView, EditorStateView, usize, Option<Seq<char>>, bool)
    decreases n,
{
    if n == 0 {
        (doc, st, counter, None, false)
    } else {
        let p = typed(doc, st, counter, op, (n - 1) as nat);
        let r = reduce_edit_spec(p.0, p.1, op);
        if r.2 {
            let c = if p.2 == usize::MAX {
                usize::MAX
            } else {
                (p.2 + 1) as usize
            };
            (
                r.0,
                r.1,
                c,
                if c % SNAPSHOT_EVERY_EDITS == 0 {
                    Some(plain_text(r.0))
                } else {
                    p.3
                },
                true,
            )
        } else {
            (r.0, r.1, p.2, p.3, p.4)
        }
    }
}

/// Applies a typing action: each edit that changes the document clears
/// the status line and counts towards the recovery snapshot. Whether the
/// document changed, and the text of the last snapshot that came due.
pub fn apply_typing(
    doc: &mut Document,
    state: &mut EditorState,
    app_state: &mut AppState,
    action: EditorKeyAction,
) -> (r: (bool, Option<String>))
    requires
        action is Insert || action is Backspace || action is NewLine,
    ensures
        ({
            let t = typed(
                old(doc)@,
                old(state)@,
                old(app_state).edit_counter,
                typing_of(action).0,
                typing_of(action).1,
            );
            &&& final(doc)@ == t.0
            &&& final(state)@ == t.1
            &&& final(app_state).edit_counter == t.2
            &&& crate::render::opt_text(r.1) == t.3
            &&& r.0 == t.4
        }),
        r.0 ==> final(app_state).status_message is None,
        !r.0 ==> final(app_state).status_message == old(app_state).status_message,
        *final(app_state) == (AppState {
            status_message: final(app_state).status_message,
            edit_counter: final(app_state).edit_counter,
            ..*old(app_state)
        }),
{
    let n: usize = match action {
        EditorKeyAction::Insert(_, n) => n,
        _ => 1,
    };
    let ghost op = typing_of(action).0;
    let ghost d0 = doc@;
    let ghost s0 = state@;
    let ghost c0 = app_state.edit_counter;
    let ghost a0 = *app_state;
    let mut changed = false;
    let mut snapshot: Option<String> = None;
    let mut i: usize = 0;
    while i < n
        invariant
            i <= n,
            n == typing_of(action).1,
            op == typing_of(action).0,
            action is Insert || action is Backspace || action is NewLine,
            ({
                let t = typed(d0, s0, c0, op, i as nat);
                &&& doc@ == t.0
                &&& state@ == t.1
                &&& app_state.edit_counter == t.2
                &&& crate::render::opt_text(snapshot) == t.3
                &&& changed == t.4
            }),
            changed ==> app_state.status_message is None,
            !changed ==> app_state.status_message == a0.status_message,
            *app_state == (AppState {
                status_message: app_state.status_message,
                edit_counter: app_state.edit_counter,
                ..a0
            }),
        decreases n - i,
    {
        let op_now = match action {
            EditorKeyAction::Insert(c, _) => EditOp::InsertChar(c),
            EditorKeyAction::Backspace => EditOp::Backspace,
            _ => EditOp::NewLine,
        };
        assert(op_now@ == op);
        if reduce_edit(doc, state, op_now) {
            clear_status(app_state);
            if record_edit(app_state) {
                snapshot = Some(document_to_plain_text(doc));
            }
            changed = true;
        }
        i = i + 1;
    }
    (changed, snapshot)
}

/// The scroll position one page up or down from `scroll_top` in a view of
/// `view_height` rows: a page is a row less than the view, at least one.
pub fn page_scroll(scroll_top: usize, view_height: usize, down: bool) -> (r: usize)
    ensures
        ({
            let step: int = if view_height <= 1 {
                1
            } else {
                view_height - 1
            };
            r == if down {
                if scroll_top + step > usize::MAX {
                    usize::MAX as int
                } else {
                    scroll_top + step
                }
            } else {
                if scroll_top < step {
                    0
                } else {
                    scroll_top - step
                }
            }
        }),
{
    let step = if view_height <= 1 {
        1
    } else {
        view_height - 1
    };
    if down {
        if scroll_top > usize::MAX - step {
            usize::MAX
        } else {
            scroll_top + step
        }
    } else if scroll_top < step {
        0
    } else {
        scroll_top - step
    }
}

/// Shows or hides the status details, and says which.
pub fn toggle_status_details(ui_state: &mut UiState, app_state: &mut AppState)
    ensures
        final(ui_state)@ == (UiStateView {
            status_details: !old(ui_state).status_details,
            ..old(ui_state)@
        }),
        status_set(
            *final(app_state),
            *old(app_state),
            if final(ui_state).status_details {
                "Status details enabled"@
            } else {
                "Status details hidden"@
            },
        ),
{
    ui_state.status_details = !ui_state.status_details;
    app_state.status_message = Some(
        if ui_state.status_details {
            "Status details enabled".to_string()
        } else {
            "Status details hidden".to_string()
        },
    );
}

/// What is left to do after a remapped key has had its effect on the
/// interface: nothing, leaving the editor, or running a command.
#[derive(Clone, Copy, Debug, PartialEq, Eq)]
pub enum RemapFollowUp {
    Done,
    Quit,
    Run(AppCommand),
}

/// Applies a remapped key: the three overlays it can open, the chrome and
/// status-detail toggles; quitting and commands are handed back.
pub fn apply_remap(remap: RemapAction, ui_state: &mut UiState, app_state: &mut AppState) -> (next: RemapFollowUp)
    ensures
        match remap {
            RemapAction::Quit => next == RemapFollowUp::Quit && final(ui_state)@ == old(ui_state)@
                && *final(app_state) == *old(app_state),
            RemapAction::Command(c) => next == RemapFollowUp::Run(c) && final(ui_state)@ == old(ui_state)@
                && *final(app_state) == *old(app_state),
            RemapAction::OpenPalette => next == RemapFollowUp::Done && final(ui_state)@ == (UiStateView {
                overlay: OverlayMode::CommandPalette,
                ..old(ui_state)@
            }) && *final(app_state) == *old(app_state),
            RemapAction::OpenMenu => next == RemapFollowUp::Done && final(ui_state)@ == (UiStateView {
                overlay: OverlayMode::Menu,
                ..old(ui_state)@
            }) && *final(app_state) == *old(app_state),
            RemapAction::OpenHelp => next == RemapFollowUp::Done && final(ui_state)@ == (UiStateView {
                overlay: OverlayMode::Help,
                ..old(ui_state)@
            }) && *final(app_state) == *old(app_state),
            RemapAction::ToggleChromeHidden => next == RemapFollowUp::Done && final(ui_state)@ == (UiStateView {
                chrome_hidden: !old(ui_state).chrome_hidden,
                ..old(ui_state)@
            }) && (final(ui_state).chrome_hidden ==> *final(app_state) == *old(app_state)) && (
            !final(ui_state).chrome_hidden ==> status_set(
                *final(app_state),
                *old(app_state),
                "Chrome shown (Ctrl+K to hide)"@,
            )),
            RemapAction::ToggleStatusDetails => next == RemapFollowUp::Done && final(ui_state)@ == (UiStateView {
                status_details: !old(ui_state).status_details,
                ..old(ui_state)@
            }) && status_set(
                *final(app_state),
                *old(app_state),
                if final(ui_state).status_details {
                    "Status details enabled"@
                } else {
                    "Status details hidden"@
                },
            ),
        },
{
    match remap {
        RemapAction::Quit => RemapFollowUp::Quit,
        RemapAction::Command(c) => RemapFollowUp::Run(c),
        RemapAction::OpenPalette => {
            ui_state.overlay = OverlayMode::CommandPalette;
            RemapFollowUp::Done
        },
        RemapAction::OpenMenu => {
            ui_state.overlay = OverlayMode::Menu;
            RemapFollowUp::Done
        },
        RemapAction::OpenHelp => {
            ui_state.overlay = OverlayMode::Help;
            RemapFollowUp::Done
        },
        RemapAction::ToggleChromeHidden => {
            apply_toggle_chrome_hidden(ui_state, app_state);
            RemapFollowUp::Done
        },
        RemapAction::ToggleStatusDetails => {
            toggle_status_details(ui_state, app_state);
            RemapFollowUp::Done
        },
    }
}

/// The configuration file could not be created, for the reason given: the
/// status line says so and how to recover, and the configuration overlay
/// stays open.
pub fn configuration_not_created(ui_state: &mut UiState, app_state: &mut AppState, reason: &str)
    ensures
        final(ui_state)@ == (UiStateView { overlay: OverlayMode::Configuration, ..old(ui_state)@ }),
        status_set(
            *final(app_state),
            *old(app_state),
            "Could not create configuration file: "@ + reason@
                + ". Run scripts/install-config.sh from the tyrannus repo (install step), or fix permissions."@,
        ),
{
    let mut m = "Could not create configuration file: ".to_string();
    m.append(reason);
    m.append(". Run scripts/install-config.sh from the tyrannus repo (install step), or fix permissions.");
    app_state.status_message = Some(m);
    ui_state.overlay = OverlayMode::Configuration;
}

/// The status message when the document shown as `path_text` could not be
/// read, for the reason given.
pub fn open_failed_message(path_text: &str, reason: &str) -> (m: String)
    ensures
        m@ == "Could not open "@ + path_text@ + ": "@ + reason@
            + ". Verify the path/permissions, then retry from Writing folder (Ctrl+M)."@,
{
    let mut m = "Could not open ".to_string();
    m.append(path_text);
    m.append(": ");
    m.append(reason);
    m.append(". Verify the path/permissions, then retry from Writing folder (Ctrl+M).");
    m
}

/// The rows that a view of `view_height` rows from `scroll_top` shows of
/// `total` rows, `width` columns wide.
pub fn visible_viewport(scroll_top: usize, view_height: usize, total: usize, width: u16) -> (v: Viewport)
    ensures
        v.top_index == scroll_top,
        v.bottom_exclusive == if scroll_top + view_height < total {
            scroll_top + view_height
        } else {
            total as int
        },
        v.width == width,
{
    let bottom = if scroll_top < total && view_height < total - scroll_top {
        scroll_top + view_height
    } else {
        total
    };
    Viewport { top_index: scroll_top, bottom_exclusive: bottom, width }
}

/// The scroll position after the caret moved to row `caret_row` (when it is
/// shown): scrolled to show it, then kept within the `total` rows.
pub fn reveal_caret(scroll_top: usize, view_height: usize, total: usize, caret_row: Option<usize>) -> (r: usize)
    ensures
        r == match caret_row {
            Some(row) => {
                let s = if view_height == 0 {
                    scroll_top as int
                } else if row < scroll_top {
                    row as int
                } else if row >= (if scroll_top + view_height > usize::MAX {
                    usize::MAX as int
                } else {
                    scroll_top + view_height
                }) {
                    row - view_height + 1
                } else {
                    scroll_top as int
                };
                if total == 0 || view_height == 0 || total <= view_height {
                    0
                } else if s <= total - view_height {
                    s
                } else {
                    total - view_height
                }
            },
            None => if total == 0 || view_height == 0 || total <= view_height {
                0
            } else if scroll_top <= total - view_height {
                scroll_top as int
            } else {
                total - view_height
            },
        },
{
    let s = match caret_row {
        Some(row) => scroll_to_reveal_row(row, view_height, scroll_top),
        None => scroll_top,
    };
    clamp_scroll(s, view_height, total)
}

/// Esc closes every dialog: from any overlay but the editor and the start
/// menu it brings the start menu back, and asks for nothing.
pub proof fn lemma_esc_closes_overlays(ui: UiStateView, key: KeyBinding, recent_len: nat, writing_len: nat)
    requires
        key.code == KeyName::Esc,
        ui.overlay != OverlayMode::NoOverlay,
        ui.overlay != OverlayMode::Menu,
    ensures
        overlay_key_step(ui, key, recent_len, writing_len).0 == with_overlay(ui, OverlayMode::Menu),
        overlay_key_step(ui, key, recent_len, writing_len).1 is None,
{
}

/// The help key (F1, Ctrl+H) toggles help: it closes help to the start
/// menu, and in every other dialog it opens help, leaving the rest as it was.
pub proof fn lemma_help_key_toggles_help(ui: UiStateView, key: KeyBinding, recent_len: nat, writing_len: nat)
    requires
        key.code == KeyName::F(1) || (key.ctrl && key.code == KeyName::Char('h')),
        ui.overlay != OverlayMode::NoOverlay,
        ui.overlay != OverlayMode::Menu,
    ensures
        overlay_key_step(ui, key, recent_len, writing_len).0 == with_overlay(
            ui,
            if ui.overlay == OverlayMode::Help {
                OverlayMode::Menu
            } else {
                OverlayMode::Help
            },
        ),
        overlay_key_step(ui, key, recent_len, writing_len).1 is None,
{
}

/// What the file system says of the writing folder.
#[derive(Clone, Debug, PartialEq, Eq)]
pub enum FolderStatus {
    Directory,
    NotDirectory,
    Missing,
    /// It could not be looked at, for the reason given.
    Unreadable(String),
}

/// Whether the writing folder shown as `root_text` can be used, by its
/// status; the message says why not.
pub fn writing_folder_check(status: &FolderStatus, root_text: &str) -> (r: Result<(), String>)
    ensures
        match status {
            FolderStatus::Directory => r is Ok,
            FolderStatus::NotDirectory => r matches Err(m) && m@
                == "Writing folder is not a directory: "@ + root_text@,
            FolderStatus::Missing => r matches Err(m) && m@ == "Writing folder does not exist: "@
                + root_text@ + ". Create it or set [paths].writing_folder in config."@,
            FolderStatus::Unreadable(e) => r matches Err(m) && m@ == "Cannot access Writing folder "@
                + root_text@ + ": "@ + e@,
        },
{
    match status {
        FolderStatus::Directory => Ok(()),
        FolderStatus::NotDirectory => {
            let mut m = "Writing folder is not a directory: ".to_string();
            m.append(root_text);
            Err(m)
        },
        FolderStatus::Missing => {
            let mut m = "Writing folder does not exist: ".to_string();
            m.append(root_text);
            m.append(". Create it or set [paths].writing_folder in config.");
            Err(m)
        },
        FolderStatus::Unreadable(e) => {
            let mut m = "Cannot access Writing folder ".to_string();
            m.append(root_text);
            m.append(": ");
            m.append(e.as_str());
            Err(m)
        },
    }
}

/// How saving the document to the file shown as `path_text` went.
#[derive(Clone, Debug, PartialEq, Eq)]
pub enum SaveOutcome {
    /// The folder shown as the text is not there.
    FolderMissing(String),
    /// What is at the folder's place, shown as the text, is not a folder.
    FolderNotDirectory(String),
    Saved,
    /// Writing failed, for the reason given.
    Failed(String),
}

/// The message that a save outcome shows.
pub fn save_message(outcome: &SaveOutcome, path_text: &str) -> (m: String)
    ensures
        m@ == match outcome {
            SaveOutcome::FolderMissing(p) => "Cannot save: directory does not exist: "@ + p@
                + " (create it first)."@,
            SaveOutcome::FolderNotDirectory(p) => "Cannot save: "@ + p@ + " is not a directory."@,
            SaveOutcome::Saved => "Saved "@ + path_text@,
            SaveOutcome::Failed(e) => "Could not save "@ + path_text@ + ": "@ + e@,
        },
{
    match outcome {
        SaveOutcome::FolderMissing(p) => {
            let mut m = "Cannot save: directory does not exist: ".to_string();
            m.append(p.as_str());
            m.append(" (create it first).");
            m
        },
        SaveOutcome::FolderNotDirectory(p) => {
            let mut m = "Cannot save: ".to_string();
            m.append(p.as_str());
            m.append(" is not a directory.");
            m
        },
        SaveOutcome::Saved => {
            let mut m = "Saved ".to_string();
            m.append(path_text);
            m
        },
        SaveOutcome::Failed(e) => {
            let mut m = "Could not save ".to_string();
            m.append(path_text);
            m.append(": ");
            m.append(e.as_str());
            m
        },
    }
}

/// A document file extension that the writing folder lists: `md`, `txt`
/// or `toml`, in any ASCII case.
pub open spec fn document_extension(ext: Seq<char>) -> bool {
    let e = ascii_lowered(ext);
    e == "md"@ || e == "txt"@ || e == "toml"@
}

/// Whether the writing folder lists files with extension `ext`.
pub fn is_document_extension(ext: &str) -> (r: bool)
    ensures
        r == document_extension(ext@),
{
    let v = text_chars(ext);
    let e = crate::strings::lower_chars(&v);
    crate::strings::chars_are(&e, "md") || crate::strings::chars_are(&e, "txt")
        || crate::strings::chars_are(&e, "toml")
}

/// Rows that one step of the mouse wheel scrolls.
pub const WHEEL_ROWS: usize = 3;

/// The scroll position after one wheel step up or down from `scroll_top`.
pub fn wheel_scroll(scroll_top: usize, down: bool) -> (r: usize)
    ensures
        r == if down {
            if scroll_top + WHEEL_ROWS > usize::MAX {
                usize::MAX as int
            } else {
                scroll_top + WHEEL_ROWS
            }
        } else if scroll_top < WHEEL_ROWS {
            0
        } else {
            scroll_top - WHEEL_ROWS
        },
{
    if down {
        if scroll_top > usize::MAX - WHEEL_ROWS {
            usize::MAX
        } else {
            scroll_top + WHEEL_ROWS
        }
    } else if scroll_top < WHEEL_ROWS {
        0
    } else {
        scroll_top - WHEEL_ROWS
    }
}

/// While the save message is shown it takes every key, and Esc or Enter
/// dismisses it; `code` is the key (`None` for a key that no binding names).
/// Whether the key was taken.
pub fn feedback_takes_key(ui_state: &mut UiState, code: Option<KeyName>) -> (taken: bool)
    ensures
        taken == old(ui_state).save_feedback is Some,
        final(ui_state)@ == if taken && (code == Some(KeyName::Esc) || code == Some(KeyName::Enter)) {
            UiStateView { save_feedback: None, ..old(ui_state)@ }
        } else {
            old(ui_state)@
        },
{
    if ui_state.save_feedback.is_none() {
        return false;
    }
    let dismiss = match code {
        Some(KeyName::Esc) => true,
        Some(KeyName::Enter) => true,
        _ => false,
    };
    if dismiss {
        ui_state.save_feedback = None;
    }
    true
}

/// Ctrl+K shows or hides the frame, before any dialog sees the key.
pub fn is_chrome_toggle(key: KeyBinding) -> (r: bool)
    ensures
        r == (key.ctrl && key.code == KeyName::Char('k')),
{
    key.ctrl && key.code == KeyName::Char('k')
}

} // verus!
