//! What the screen shows of the session: the styles of cells and menu
//! items, the text rows of the visible part of the document, the status
//! line, and where dialogs go and how their text wraps.

use vstd::prelude::*;

use crate::config::{
    theme_color, theme_color_in, AnsiColor, CursorConfig, CursorStyleConfig, EditorConfig, Theme,
    ThemeRole, TypographyConfig,
};
use crate::document::Document;
use crate::edit::{selection_ordered, EditorState};
use crate::layout::{cursor_to_row_col, laid_fits, row_col_of, LaidOutDocument, LaidOutLine, LineView, H_PAD};
use crate::commands::{mode_name, overlay_mode_name, OverlayMode, UiState};
use crate::config::{decimal, decimal_string};
use crate::session::AppState;
use crate::strings::{chars_are, is_ws, string_of_chars, string_push};
use crate::text::text_chars;
use unicode_segmentation::UnicodeSegmentation;
use unicode_width::UnicodeWidthStr;
use crate::viewport::LayoutMemoryStats;
use std::path::PathBuf;

verus! {

/// Colors and emphasis of a piece of text; `None` leaves the color as the
/// surrounding text has it.
#[derive(Clone, Copy, Debug, PartialEq, Eq)]
pub struct CellStyle {
    pub fg: Option<AnsiColor>,
    pub bg: Option<AnsiColor>,
    pub underlined: bool,
    pub bold: bool,
}

pub open spec fn colored(fg: AnsiColor, bg: Option<AnsiColor>, underlined: bool) -> CellStyle {
    CellStyle { fg: Some(fg), bg, underlined, bold: false }
}

/// Style of a document cell of the theme `theme`: the caret's style wins
/// over the selection's, which wins over plain text.
pub open spec fn cell_style(
    cursor_here: bool,
    in_selection: bool,
    theme: Seq<Seq<char>>,
    cursor: CursorStyleConfig,
) -> CellStyle {
    let fg = theme_color(theme, ThemeRole::Foreground);
    if cursor_here {
        match cursor {
            CursorStyleConfig::Block => colored(
                fg,
                Some(theme_color(theme, ThemeRole::CursorLine)),
                false,
            ),
            CursorStyleConfig::Line => colored(fg, None, true),
            CursorStyleConfig::Underline => colored(
                fg,
                Some(theme_color(theme, ThemeRole::Background)),
                true,
            ),
        }
    } else if in_selection {
        colored(
            theme_color(theme, ThemeRole::ListSelectionForeground),
            Some(theme_color(theme, ThemeRole::ListSelectionBackground)),
            false,
        )
    } else {
        colored(fg, Some(theme_color(theme, ThemeRole::Background)), false)
    }
}

/// Style of a document cell.
pub fn resolve_cell_style(
    is_cursor_here: bool,
    in_selection: bool,
    theme: &Theme,
    cursor_cfg: &CursorConfig,
) -> (s: CellStyle)
    ensures
        s == cell_style(is_cursor_here, in_selection, theme@, cursor_cfg.style),
{
    let fg = theme_color_in(theme, ThemeRole::Foreground);
    if is_cursor_here {
        match cursor_cfg.style {
            CursorStyleConfig::Block => CellStyle {
                fg: Some(fg),
                bg: Some(theme_color_in(theme, ThemeRole::CursorLine)),
                underlined: false,
                bold: false,
            },
            CursorStyleConfig::Line => CellStyle { fg: Some(fg), bg: None, underlined: true, bold: false },
            CursorStyleConfig::Underline => CellStyle {
                fg: Some(fg),
                bg: Some(theme_color_in(theme, ThemeRole::Background)),
                underlined: true,
                bold: false,
            },
        }
    } else if in_selection {
        CellStyle {
            fg: Some(theme_color_in(theme, ThemeRole::ListSelectionForeground)),
            bg: Some(theme_color_in(theme, ThemeRole::ListSelectionBackground)),
            underlined: false,
            bold: false,
        }
    } else {
        CellStyle {
            fg: Some(fg),
            bg: Some(theme_color_in(theme, ThemeRole::Background)),
            underlined: false,
            bold: false,
        }
    }
}

/// Style of a start-menu entry: the selected one is bold in the accent
/// color, on no background of its own.
pub open spec fn menu_item_style(selected: bool, theme: Seq<Seq<char>>) -> CellStyle {
    if selected {
        CellStyle {
            fg: Some(theme_color(theme, ThemeRole::Accent)),
            bg: None,
            underlined: false,
            bold: true,
        }
    } else {
        CellStyle {
            fg: Some(theme_color(theme, ThemeRole::Foreground)),
            bg: None,
            underlined: false,
            bold: false,
        }
    }
}

/// Style of a start-menu entry.
pub fn resolve_start_menu_item_style(is_selected: bool, theme: &Theme) -> (s: CellStyle)
    ensures
        s == menu_item_style(is_selected, theme@),
{
    if is_selected {
        CellStyle {
            fg: Some(theme_color_in(theme, ThemeRole::Accent)),
            bg: None,
            underlined: false,
            bold: true,
        }
    } else {
        CellStyle {
            fg: Some(theme_color_in(theme, ThemeRole::Foreground)),
            bg: None,
            underlined: false,
            bold: false,
        }
    }
}

/// A piece of a screen row: its text and, unless it is unstyled, its style.
#[derive(Clone, Debug)]
pub struct ScreenSpan {
    pub text: String,
    pub style: Option<CellStyle>,
}

pub struct SpanView {
    pub text: Seq<char>,
    pub style: Option<CellStyle>,
}

impl View for ScreenSpan {
    type V = SpanView;

    open spec fn view(&self) -> SpanView {
        SpanView { text: self.text@, style: self.style }
    }
}

pub open spec fn spans_view(v: Seq<ScreenSpan>) -> Seq<SpanView> {
    Seq::new(v.len(), |i: int| v[i]@)
}

pub open spec fn rows_view(v: Seq<Vec<ScreenSpan>>) -> Seq<Seq<SpanView>> {
    Seq::new(v.len(), |i: int| spans_view(v[i]@))
}

/// `n` spaces.
pub open spec fn spaces(n: nat) -> Seq<char> {
    Seq::new(n, |_i: int| ' ')
}

/// What a cell with char `ch` shows: the char (a middle dot for a space when
/// invisibles are shown), then the extra spacing after a word or a letter.
pub open spec fn cell_text(ch: char, invisibles: bool, word: usize, letter: usize) -> Seq<char> {
    (if invisibles && ch == ' ' {
        seq!['\u{b7}']
    } else {
        seq![ch]
    }) + spaces(
        if ch == ' ' {
            word as nat
        } else {
            letter as nat
        },
    )
}

/// The global char index `g` lies in the selection range `sel`.
pub open spec fn in_range(sel: Option<(usize, usize)>, g: usize) -> bool {
    match sel {
        Some(r) => r.0 <= g && g < r.1,
        None => false,
    }
}

/// How the document is painted: the theme, the caret's look, and the
/// spacing and invisibles settings.
pub struct Look {
    pub theme: Seq<Seq<char>>,
    pub cursor: CursorStyleConfig,
    pub invisibles: bool,
    pub word: usize,
    pub letter: usize,
}

pub open spec fn accent_style(theme: Seq<Seq<char>>) -> CellStyle {
    CellStyle {
        fg: Some(theme_color(theme, ThemeRole::Accent)),
        bg: None,
        underlined: false,
        bold: false,
    }
}

pub open spec fn raw_span(t: Seq<char>) -> SpanView {
    SpanView { text: t, style: None }
}

/// Span of cell `k` of `line`, with the caret at row/column `rc` and the
/// selection range `sel`.
pub open spec fn cell_span(
    line: LineView,
    k: int,
    rc: Option<(usize, usize)>,
    sel: Option<(usize, usize)>,
    look: Look,
) -> SpanView {
    let ch = line.cells[k].1;
    SpanView {
        text: cell_text(ch, look.invisibles, look.word, look.letter),
        style: Some(
            cell_style(
                rc == Some((line.row, (line.gutter + k) as usize)),
                in_range(sel, line.cells[k].2),
                look.theme,
                look.cursor,
            ),
        ),
    }
}

/// The spans of a laid-out line: the pad, the gutter or the prefix, a span
/// per cell, and a caret span when the caret is past the last cell.
pub open spec fn line_spans(
    line: LineView,
    rc: Option<(usize, usize)>,
    sel: Option<(usize, usize)>,
    look: Look,
) -> Seq<SpanView> {
    let lead = if line.prefix.len() == 0 {
        raw_span(spaces(line.gutter as nat))
    } else {
        SpanView { text: line.prefix, style: Some(accent_style(look.theme)) }
    };
    let cells = Seq::new(line.cells.len(), |k: int| cell_span(line, k, rc, sel, look));
    let tail = if rc == Some((line.row, (line.gutter + line.cells.len()) as usize)) {
        seq![SpanView { text: seq![' '], style: Some(cell_style(true, false, look.theme, look.cursor)) }]
    } else {
        Seq::empty()
    };
    seq![raw_span(spaces(H_PAD as nat)), lead] + cells + tail
}

/// The `h` screen rows from line `top` of `lines`; past the end a row is
/// only the pad.
pub open spec fn body_rows(
    lines: Seq<LineView>,
    top: usize,
    h: nat,
    rc: Option<(usize, usize)>,
    sel: Option<(usize, usize)>,
    look: Look,
) -> Seq<Seq<SpanView>> {
    Seq::new(
        h,
        |r: int|
            if top + r < lines.len() {
                line_spans(lines[top + r], rc, sel, look)
            } else {
                seq![raw_span(spaces(H_PAD as nat))]
            },
    )
}

/// The selection range shown: the ordered ends, when they differ.
pub open spec fn shown_selection(sel: Option<crate::edit::Selection>) -> Option<(usize, usize)> {
    match sel {
        Some(s) => {
            let lo = if s.anchor <= s.head {
                s.anchor
            } else {
                s.head
            };
            let hi = if s.anchor <= s.head {
                s.head
            } else {
                s.anchor
            };
            if lo < hi {
                Some((lo, hi))
            } else {
                None
            }
        },
        None => None,
    }
}

/// A string of `n` spaces.
pub fn spaces_string(n: usize) -> (s: String)
    ensures
        s@ == spaces(n as nat),
{
    let mut s = String::new();
    let mut i: usize = 0;
    while i < n
        invariant
            i <= n,
            s@ == spaces(i as nat),
        decreases n - i,
    {
        string_push(&mut s, ' ');
        assert(s@ =~= spaces((i + 1) as nat));
        i = i + 1;
    }
    s
}

fn cell_text_string(ch: char, invisibles: bool, word: usize, letter: usize) -> (s: String)
    ensures
        s@ == cell_text(ch, invisibles, word, letter),
{
    let mut s = String::new();
    if invisibles && ch == ' ' {
        string_push(&mut s, '\u{b7}');
    } else {
        string_push(&mut s, ch);
    }
    let n = if ch == ' ' {
        word
    } else {
        letter
    };
    let ghost first = s@;
    let mut i: usize = 0;
    while i < n
        invariant
            i <= n,
            s@ == first + spaces(i as nat),
        decreases n - i,
    {
        string_push(&mut s, ' ');
        assert(s@ =~= first + spaces((i + 1) as nat));
        i = i + 1;
    }
    s
}

fn line_spans_of(
    ll: &LaidOutLine,
    rc: Option<(usize, usize)>,
    sel: Option<(usize, usize)>,
    theme: &Theme,
    cursor_cfg: &CursorConfig,
    invisibles: bool,
    word: usize,
    letter: usize,
) -> (spans: Vec<ScreenSpan>)
    requires
        ll@.gutter + ll@.cells.len() + 1 <= usize::MAX,
    ensures
        spans_view(spans@) == line_spans(
            ll@,
            rc,
            sel,
            Look { theme: theme@, cursor: cursor_cfg.style, invisibles, word, letter },
        ),
{
    let ghost look = Look { theme: theme@, cursor: cursor_cfg.style, invisibles, word, letter };
    let ghost lv = ll@;
    let mut spans: Vec<ScreenSpan> = Vec::new();
    spans.push(ScreenSpan { text: spaces_string(H_PAD), style: None });
    if ll.prefix.as_str().is_empty() {
        spans.push(ScreenSpan { text: spaces_string(ll.gutter), style: None });
    } else {
        spans.push(
            ScreenSpan {
                text: ll.prefix.clone(),
                style: Some(
                    CellStyle {
                        fg: Some(theme_color_in(theme, ThemeRole::Accent)),
                        bg: None,
                        underlined: false,
                        bold: false,
                    },
                ),
            },
        );
    }
    let ghost head = spans_view(spans@);
    let ghost cells = Seq::new(lv.cells.len(), |k: int| cell_span(lv, k, rc, sel, look));
    assert(head =~= seq![raw_span(spaces(H_PAD as nat)), line_spans(lv, rc, sel, look)[1]]);
    let mut i: usize = 0;
    while i < ll.cells.len()
        invariant
            lv == ll@,
            lv.gutter + lv.cells.len() + 1 <= usize::MAX,
            i <= ll.cells@.len(),
            lv.cells.len() == ll.cells@.len(),
            look == (Look { theme: theme@, cursor: cursor_cfg.style, invisibles, word, letter }),
            cells == Seq::new(lv.cells.len(), |k: int| cell_span(lv, k, rc, sel, look)),
            spans_view(spans@) == head + cells.take(i as int),
        decreases ll.cells@.len() - i,
    {
        let ch = ll.cells[i].1;
        let gidx = ll.cells[i].2;
        assert(lv.cells[i as int].1 == ch && lv.cells[i as int].2 == gidx);
        let here = match rc {
            Some(p) => p.0 == ll.row && p.1 == ll.gutter + i,
            None => false,
        };
        let inside = match sel {
            Some(r) => r.0 <= gidx && gidx < r.1,
            None => false,
        };
        let st = resolve_cell_style(here, inside, theme, cursor_cfg);
        let text = cell_text_string(ch, invisibles, word, letter);
        assert(here == (rc == Some((lv.row, (lv.gutter + i) as usize))));
        assert(inside == in_range(sel, lv.cells[i as int].2));
        assert(cells[i as int] == (SpanView { text: text@, style: Some(st) }));
        let ghost before = spans@;
        spans.push(ScreenSpan { text, style: Some(st) });
        assert(spans@ == before.push(spans@[spans@.len() - 1]));
        assert(spans_view(spans@) =~= spans_view(before).push(cells[i as int]));
        assert(cells.take(i + 1) =~= cells.take(i as int).push(cells[i as int]));
        assert(spans_view(spans@) =~= head + cells.take(i + 1));
        i = i + 1;
    }
    assert(cells.take(i as int) =~= cells);
    let at_end = match rc {
        Some(p) => p.0 == ll.row && p.1 == ll.gutter + ll.cells.len(),
        None => false,
    };
    if at_end {
        let mut t = String::new();
        string_push(&mut t, ' ');
        spans.push(ScreenSpan { text: t, style: Some(resolve_cell_style(true, false, theme, cursor_cfg)) });
    }
    assert(spans_view(spans@) =~= line_spans(lv, rc, sel, look));
    spans
}

/// The text rows of the `inner_h` rows of the editor body, from the first
/// visible line: each row's spans with their styles.
pub fn body_lines(
    doc: &Document,
    state: &EditorState,
    laid: &LaidOutDocument,
    inner_h: usize,
    theme: &Theme,
    cursor_cfg: &CursorConfig,
    typography: &TypographyConfig,
    editor: &EditorConfig,
) -> (rows: Vec<Vec<ScreenSpan>>)
    requires
        laid_fits(laid@),
        state.scroll_top + inner_h <= usize::MAX,
    ensures
        rows_view(rows@) == body_rows(
            laid@,
            state.scroll_top,
            inner_h as nat,
            row_col_of(laid@, state.cursor@),
            shown_selection(state.selection),
            Look {
                theme: theme@,
                cursor: cursor_cfg.style,
                invisibles: editor.show_invisibles,
                word: typography.extra_word_spacing,
                letter: typography.extra_letter_spacing,
            },
        ),
{
    let ghost look = Look {
        theme: theme@,
        cursor: cursor_cfg.style,
        invisibles: editor.show_invisibles,
        word: typography.extra_word_spacing,
        letter: typography.extra_letter_spacing,
    };
    let sel_range = match state.selection {
        Some(s) => {
            let (lo, hi) = selection_ordered(&s);
            if lo < hi {
                Some((lo, hi))
            } else {
                None
            }
        },
        None => None,
    };
    let cursor_rc = cursor_to_row_col(doc, laid, &state.cursor);
    let ghost target = body_rows(
        laid@,
        state.scroll_top,
        inner_h as nat,
        cursor_rc,
        sel_range,
        look,
    );
    let mut rows: Vec<Vec<ScreenSpan>> = Vec::new();
    let mut r: usize = 0;
    while r < inner_h
        invariant
            r <= inner_h,
            state.scroll_top + inner_h <= usize::MAX,
            laid_fits(laid@),
            target == body_rows(laid@, state.scroll_top, inner_h as nat, cursor_rc, sel_range, look),
            look == (Look {
                theme: theme@,
                cursor: cursor_cfg.style,
                invisibles: editor.show_invisibles,
                word: typography.extra_word_spacing,
                letter: typography.extra_letter_spacing,
            }),
            rows_view(rows@) == target.take(r as int),
        decreases inner_h - r,
    {
        let global_row = state.scroll_top + r;
        if global_row < laid.lines.len() {
            assert(laid@[global_row as int] == laid.lines@[global_row as int]@);
            let spans = line_spans_of(
                &laid.lines[global_row],
                cursor_rc,
                sel_range,
                theme,
                cursor_cfg,
                editor.show_invisibles,
                typography.extra_word_spacing,
                typography.extra_letter_spacing,
            );
            assert(spans_view(spans@) == target[r as int]);
            let ghost before = rows@;
            rows.push(spans);
            assert(rows_view(rows@) =~= rows_view(before).push(target[r as int]));
        } else {
            let mut pad: Vec<ScreenSpan> = Vec::new();
            pad.push(ScreenSpan { text: spaces_string(H_PAD), style: None });
            assert(spans_view(pad@) =~= seq![raw_span(spaces(H_PAD as nat))]);
            assert(spans_view(pad@) == target[r as int]);
            let ghost before = rows@;
            rows.push(pad);
            assert(rows_view(rows@) =~= rows_view(before).push(target[r as int]));
        }
        assert(rows_view(rows@) =~= target.take(r + 1));
        r = r + 1;
    }
    assert(target.take(r as int) =~= target);
    rows
}

/// The status line's pieces: mode, document name `name`, overlay, status
/// message (`ready` when there is none), then either the details (screen
/// size `w`×`h`, layout memory `mem`, mouse capture) or the key hints.
pub open spec fn status_texts(
    name: Seq<char>,
    overlay: OverlayMode,
    status: Option<Seq<char>>,
    details: bool,
    mouse: bool,
    w: u16,
    h: u16,
    mem: LayoutMemoryStats,
) -> Seq<Seq<char>> {
    let base = seq![
        " insert "@,
        " | "@ + name + " "@,
        " | "@ + mode_name(overlay),
        " | "@ + match status {
            Some(m) => m,
            None => "ready"@,
        },
    ];
    if details {
        base + seq![
            " | "@ + decimal(w as nat) + "\u{d7}"@ + decimal(h as nat),
            " | mem:"@ + decimal(mem.line_count as nat) + "L/"@ + decimal(mem.cell_count as nat)
                + "C/"@ + decimal((mem.approx_bytes / 1024) as nat) + "K/"@ + decimal(
                mem.queued_tasks as nat,
            ) + "Q"@,
            if mouse {
                " | mouse:on"@
            } else {
                " | mouse:off"@
            },
        ]
    } else {
        base + seq![
            " | Ctrl+P palette | Ctrl+H help | Ctrl+S save | Ctrl+K hide chrome | F2 details"@,
        ]
    }
}

pub open spec fn opt_text(o: Option<String>) -> Option<Seq<char>> {
    match o {
        Some(m) => Some(m@),
        None => None,
    }
}

pub open spec fn strings_view(v: Seq<String>) -> Seq<Seq<char>> {
    Seq::new(v.len(), |i: int| v[i]@)
}

/// The last component of path `p` as `Path::file_name` gives it, written out
/// lossily; `None` when the path has none.
pub uninterp spec fn file_name_text(p: PathBuf) -> Option<Seq<char>>;

/// `Path::file_name`, written out lossily: `file_name_text` of `p`.
#[verifier::external_body]
fn path_file_name(p: &PathBuf) -> (r: Option<String>)
    ensures
        match r {
            Some(n) => file_name_text(*p) == Some(n@),
            None => file_name_text(*p) is None,
        },
{
    p.file_name().map(|n| n.to_string_lossy().to_string())
}

/// The name that the status line shows for the current document.
pub open spec fn shown_document_name(current: Option<PathBuf>) -> Seq<char> {
    match current {
        Some(p) => match file_name_text(p) {
            Some(n) => n,
            None => "(unsaved)"@,
        },
        None => "(unsaved)"@,
    }
}

/// The status line under the editor, as its pieces, on a `w`×`h` screen.
pub fn status_spans(
    w: u16,
    h: u16,
    mem: &LayoutMemoryStats,
    ui_state: &UiState,
    app_state: &AppState,
) -> (texts: Vec<String>)
    ensures
        strings_view(texts@) == status_texts(
            shown_document_name(app_state.current_document_path),
            ui_state.overlay,
            opt_text(app_state.status_message),
            ui_state.status_details,
            ui_state.mouse_enabled,
            w,
            h,
            *mem,
        ),
{
    let name = match &app_state.current_document_path {
        Some(p) => match path_file_name(p) {
            Some(n) => n,
            None => "(unsaved)".to_string(),
        },
        None => "(unsaved)".to_string(),
    };
    let ghost nm = name@;
    let ghost st = opt_text(app_state.status_message);
    let mut texts: Vec<String> = Vec::new();
    texts.push(" insert ".to_string());
    let mut t1 = " | ".to_string();
    t1.append(name.as_str());
    t1.append(" ");
    texts.push(t1);
    let mut t2 = " | ".to_string();
    t2.append(overlay_mode_name(ui_state.overlay));
    texts.push(t2);
    let mut t3 = " | ".to_string();
    match &app_state.status_message {
        Some(m) => t3.append(m.as_str()),
        None => t3.append("ready"),
    }
    texts.push(t3);
    if ui_state.status_details {
        let mut t4 = " | ".to_string();
        t4.append(decimal_string(w as usize).as_str());
        t4.append("\u{d7}");
        t4.append(decimal_string(h as usize).as_str());
        texts.push(t4);
        let mut t5 = " | mem:".to_string();
        t5.append(decimal_string(mem.line_count).as_str());
        t5.append("L/");
        t5.append(decimal_string(mem.cell_count).as_str());
        t5.append("C/");
        t5.append(decimal_string(mem.approx_bytes / 1024).as_str());
        t5.append("K/");
        t5.append(decimal_string(mem.queued_tasks).as_str());
        t5.append("Q");
        texts.push(t5);
        if ui_state.mouse_enabled {
            texts.push(" | mouse:on".to_string());
        } else {
            texts.push(" | mouse:off".to_string());
        }
    } else {
        texts.push(
            " | Ctrl+P palette | Ctrl+H help | Ctrl+S save | Ctrl+K hide chrome | F2 details".to_string(),
        );
    }
    assert(strings_view(texts@) =~= status_texts(
        nm,
        ui_state.overlay,
        st,
        ui_state.status_details,
        ui_state.mouse_enabled,
        w,
        h,
        *mem,
    ));
    texts
}

/// A part of the screen: its top-left cell and its size.
#[derive(Clone, Copy, Debug, PartialEq, Eq)]
pub struct Area {
    pub x: u16,
    pub y: u16,
    pub width: u16,
    pub height: u16,
}

pub open spec fn min_u16(a: u16, b: u16) -> u16 {
    if a <= b {
        a
    } else {
        b
    }
}

/// A `width`×`height` part centered in `area`, cut to fit it.
pub fn centered_rect(area: Area, width: u16, height: u16) -> (r: Area)
    requires
        area.x + area.width <= u16::MAX,
        area.y + area.height <= u16::MAX,
    ensures
        r.width == min_u16(width, area.width),
        r.height == min_u16(height, area.height),
        r.x == area.x + (area.width - r.width) / 2,
        r.y == area.y + (area.height - r.height) / 2,
{
    let w = if width <= area.width {
        width
    } else {
        area.width
    };
    let h = if height <= area.height {
        height
    } else {
        area.height
    };
    let x = area.x + (area.width - w) / 2;
    let y = area.y + (area.height - h) / 2;
    Area { x, y, width: w, height: h }
}

/// The rows `(y, height)` of the body when `Layout::split` parts the
/// rectangle `x, y, width, height` (as `Rect::new` makes it) into a body of
/// at least one row over a one-row status strip.
pub uninterp spec fn split_body_rows(x: u16, y: u16, width: u16, height: u16) -> (u16, u16);

/// `a + b`, held at `u16::MAX`.
pub open spec fn sat_add_u16(a: u16, b: u16) -> u16 {
    if a + b > u16::MAX { u16::MAX } else { (a + b) as u16 }
}

/// `a - b`, held at zero.
pub open spec fn sat_sub_u16(a: u16, b: u16) -> u16 {
    if a >= b { (a - b) as u16 } else { 0 }
}

/// The inside of a block bordered on all four sides that covers
/// `x, y, width, height`: one cell in from each edge, with no room left
/// where the block is less than three cells across.
pub open spec fn bordered_inside(x: u16, y: u16, width: u16, height: u16) -> (u16, u16, u16, u16) {
    (
        if sat_add_u16(x, 1) <= sat_add_u16(x, width) { sat_add_u16(x, 1) } else { sat_add_u16(x, width) },
        if sat_add_u16(y, 1) <= sat_add_u16(y, height) { sat_add_u16(y, 1) } else { sat_add_u16(y, height) },
        sat_sub_u16(width, 2),
        sat_sub_u16(height, 2),
    )
}

/// The document body of an editor framed in `x, y, width, height`: the
/// inside of a bordered block that spans the columns (up to the screen's
/// last one) and the rows that the split leaves above a one-row status strip.
pub open spec fn framed_body(x: u16, y: u16, width: u16, height: u16) -> (u16, u16, u16, u16) {
    let rows = split_body_rows(x, y, width, height);
    bordered_inside(x, rows.0, (sat_add_u16(x, width) - x) as u16, rows.1)
}

/// `Rect::new` of `area`, then `Layout::split` of it (vertical) into a body
/// of at least one row over a one-row status strip; the body is returned.
/// A vertical split keeps the rectangle's columns, and `Rect::new` cuts the
/// width at the last column; the body's rows are named `split_body_rows`.
#[verifier::external_body]
fn body_chunk(area: Area) -> (r: Area)
    ensures
        r.x == area.x,
        r.width == sat_add_u16(area.x, area.width) - area.x,
        (r.y, r.height) == split_body_rows(area.x, area.y, area.width, area.height),
{
    let rect = ratatui::layout::Rect::new(area.x, area.y, area.width, area.height);
    let chunks = ratatui::layout::Layout::default().direction(
        ratatui::layout::Direction::Vertical,
    ).constraints([ratatui::layout::Constraint::Min(1), ratatui::layout::Constraint::Length(1)]).split(
        rect,
    );
    Area { x: chunks[0].x, y: chunks[0].y, width: chunks[0].width, height: chunks[0].height }
}

/// `Block::inner` of a block with all four borders, no title and no padding
/// (ratatui): the area one cell in from each edge, as `bordered_inside`.
#[verifier::external_body]
fn bordered_inner(a: Area) -> (r: Area)
    ensures
        (r.x, r.y, r.width, r.height) == bordered_inside(a.x, a.y, a.width, a.height),
{
    let rect = ratatui::layout::Rect { x: a.x, y: a.y, width: a.width, height: a.height };
    let inner = ratatui::widgets::Block::default().borders(ratatui::widgets::Borders::ALL).inner(rect);
    Area { x: inner.x, y: inner.y, width: inner.width, height: inner.height }
}

/// The title on the frame round the document: it names the wheel only when
/// the mouse is captured, and says `(no mouse)` otherwise.
pub fn body_frame_title(mouse_enabled: bool) -> (t: &'static str)
    ensures
        t@ == if mouse_enabled {
            " tyrannus — PgUp/PgDn scroll, wheel, Ctrl+Q quit "@
        } else {
            " tyrannus — PgUp/PgDn scroll, Ctrl+Q quit (no mouse) "@
        },
{
    if mouse_enabled {
        " tyrannus — PgUp/PgDn scroll, wheel, Ctrl+Q quit "
    } else {
        " tyrannus — PgUp/PgDn scroll, Ctrl+Q quit (no mouse) "
    }
}

/// The area where the document's text goes: the whole of `area` when the
/// frame is hidden, else the inside of the frame.
pub fn body_inner_rect(area: Area, chrome_hidden: bool) -> (r: Area)
    ensures
        chrome_hidden ==> r == area,
        !chrome_hidden ==> (r.x, r.y, r.width, r.height) == framed_body(
            area.x,
            area.y,
            area.width,
            area.height,
        ),
{
    if chrome_hidden {
        return area;
    }
    let body = body_chunk(area);
    bordered_inner(body)
}

/// Width and height of the text area, each at least one.
pub fn body_inner_dims(area: Area, chrome_hidden: bool) -> (r: (u16, usize))
    ensures
        ({
            let inner = if chrome_hidden {
                (area.x, area.y, area.width, area.height)
            } else {
                framed_body(area.x, area.y, area.width, area.height)
            };
            &&& r.0 == if inner.2 >= 1 {
                inner.2
            } else {
                1
            }
            &&& r.1 == if inner.3 >= 1 {
                inner.3 as usize
            } else {
                1
            }
        }),
{
    let inner = body_inner_rect(area, chrome_hidden);
    let w = if inner.width >= 1 {
        inner.width
    } else {
        1
    };
    let h = if inner.height >= 1 {
        inner.height as usize
    } else {
        1
    };
    (w, h)
}

/// Whether the text area has room for at least one cell.
pub fn area_is_usable(area: Area, chrome_hidden: bool) -> (r: bool)
    ensures
        ({
            let inner = if chrome_hidden {
                (area.x, area.y, area.width, area.height)
            } else {
                framed_body(area.x, area.y, area.width, area.height)
            };
            r == (inner.2 >= 1 && inner.3 >= 1)
        }),
{
    let inner = body_inner_rect(area, chrome_hidden);
    inner.width >= 1 && inner.height >= 1
}

/// `s` without trailing whitespace.
pub open spec fn trim_end(s: Seq<char>) -> Seq<char>
    decreases s.len(),
{
    if s.len() > 0 && is_ws(s.last()) {
        trim_end(s.drop_last())
    } else {
        s
    }
}

/// `s` without leading whitespace.
pub open spec fn trim_start(s: Seq<char>) -> Seq<char>
    decreases s.len(),
{
    if s.len() > 0 && is_ws(s[0]) {
        trim_start(s.skip(1))
    } else {
        s
    }
}

pub proof fn lemma_trim_start_len(s: Seq<char>)
    ensures
        trim_start(s).len() <= s.len(),
    decreases s.len(),
{
    if s.len() > 0 && is_ws(s[0]) {
        lemma_trim_start_len(s.skip(1));
    }
}

/// The chars of `v` without trailing whitespace.
pub fn trim_end_chars(v: &Vec<char>) -> (r: Vec<char>)
    ensures
        r@ == trim_end(v@),
{
    let mut b: usize = v.len();
    assert(v@.take(b as int) =~= v@);
    while b > 0 && crate::strings::char_is_ws(v[b - 1])
        invariant
            b <= v@.len(),
            trim_end(v@.take(b as int)) == trim_end(v@),
        decreases b,
    {
        assert(v@.take(b as int).drop_last() =~= v@.take(b - 1));
        b = b - 1;
    }
    let mut r: Vec<char> = Vec::new();
    let mut i: usize = 0;
    while i < b
        invariant
            i <= b <= v@.len(),
            r@ == v@.take(i as int),
        decreases b - i,
    {
        r.push(v[i]);
        assert(r@ =~= v@.take(i + 1));
        i = i + 1;
    }
    r
}

/// The chars of `v` without leading whitespace.
pub fn trim_start_chars(v: &Vec<char>) -> (r: Vec<char>)
    ensures
        r@ == trim_start(v@),
{
    let mut a: usize = 0;
    assert(v@.skip(0) =~= v@);
    while a < v.len() && crate::strings::char_is_ws(v[a])
        invariant
            a <= v@.len(),
            trim_start(v@.skip(a as int)) == trim_start(v@),
        decreases v@.len() - a,
    {
        assert(v@.skip(a as int).skip(1) =~= v@.skip(a + 1));
        a = a + 1;
    }
    let mut r: Vec<char> = Vec::new();
    let mut i: usize = a;
    while i < v.len()
        invariant
            a <= i <= v@.len(),
            r@ == v@.subrange(a as int, i as int),
        decreases v@.len() - i,
    {
        r.push(v[i]);
        assert(r@ =~= v@.subrange(a as int, i + 1));
        i = i + 1;
    }
    assert(r@ =~= v@.skip(a as int));
    r
}

/// The extended grapheme clusters of `s`, in order.
pub uninterp spec fn grapheme_clusters(s: Seq<char>) -> Seq<Seq<char>>;

/// The columns that `s` takes on a terminal.
pub uninterp spec fn text_columns(s: Seq<char>) -> nat;

/// The texts of `v` one after another.
pub open spec fn concat_all(v: Seq<Seq<char>>) -> Seq<char>
    decreases v.len(),
{
    if v.len() == 0 {
        Seq::empty()
    } else {
        concat_all(v.drop_last()) + v.last()
    }
}

pub proof fn lemma_concat_all_append(a: Seq<Seq<char>>, b: Seq<Seq<char>>)
    ensures
        concat_all(a + b) == concat_all(a) + concat_all(b),
    decreases b.len(),
{
    if b.len() == 0 {
        assert(a + b =~= a);
        assert(concat_all(a) + concat_all(b) =~= concat_all(a));
    } else {
        assert((a + b).drop_last() =~= a + b.drop_last());
        lemma_concat_all_append(a, b.drop_last());
        assert(concat_all(a) + concat_all(b) =~= concat_all(a) + concat_all(b.drop_last()) + b.last());
    }
}

pub proof fn lemma_concat_all_len(v: Seq<Seq<char>>, i: int)
    requires
        0 <= i < v.len(),
    ensures
        concat_all(v).len() >= v[i].len(),
    decreases v.len(),
{
    if i < v.len() - 1 {
        lemma_concat_all_len(v.drop_last(), i);
    }
}

/// `UnicodeSegmentation::graphemes(s, true)`: the extended grapheme clusters
/// of `s`, each a nonempty slice of `s`, one after another from its start to
/// its end.
#[verifier::external_body]
fn graphemes_of(s: &str) -> (v: Vec<String>)
    ensures
        strings_view(v@) == grapheme_clusters(s@),
        concat_all(strings_view(v@)) == s@,
        forall|i: int| 0 <= i < v@.len() ==> (#[trigger] v@[i])@.len() > 0,
{
    let mut v: Vec<String> = Vec::new();
    for g in s.graphemes(true) {
        v.push(g.to_string());
    }
    v
}

/// `UnicodeWidthStr::width`: the columns that `s` takes on a terminal.
#[verifier::external_body]
pub(crate) fn str_width(s: &str) -> (w: usize)
    ensures
        w as nat == text_columns(s@),
{
    UnicodeWidthStr::width(s)
}

/// Scanning clusters `gs` from `i` with `acc` of `max` columns used: how
/// many clusters fit, and how many end with the last space cluster among
/// them.
pub open spec fn fit_scan(gs: Seq<Seq<char>>, max: nat, i: int, acc: nat, fit: nat, brk: nat) -> (
    nat,
    nat,
)
    decreases gs.len() - i,
{
    if i < 0 || i >= gs.len() {
        (fit, brk)
    } else if acc + text_columns(gs[i]) > max {
        (fit, brk)
    } else {
        fit_scan(
            gs,
            max,
            i + 1,
            acc + text_columns(gs[i]),
            (i + 1) as nat,
            if gs[i] == " "@ {
                (i + 1) as nat
            } else {
                brk
            },
        )
    }
}

/// How many clusters of `gs` the next line takes: up to the last space
/// that fits, else as many as fit, else one.
pub open spec fn line_take(gs: Seq<Seq<char>>, max: nat) -> int {
    let r = fit_scan(gs, max, 0, 0, 0, 0);
    let t = if r.1 > 0 {
        r.1
    } else if r.0 > 0 {
        r.0
    } else {
        1
    };
    if t <= gs.len() {
        t as int
    } else {
        gs.len() as int
    }
}

/// The lines that the nonblank text `rest` wraps into at `max` columns: a
/// line that fits is kept whole; else the line ends after the last space
/// that fits (trailing blanks dropped, the next line's leading blanks too),
/// or after as many clusters as fit, or after one cluster.
pub open spec fn wrap_lines(rest: Seq<char>, max: nat) -> Seq<Seq<char>>
    decreases rest.len(),
{
    if rest.len() == 0 {
        Seq::empty()
    } else if text_columns(rest) <= max {
        seq![rest]
    } else {
        let gs = grapheme_clusters(rest);
        let t = line_take(gs, max);
        let line = trim_end(concat_all(gs.take(t)));
        if line.len() == 0 {
            let after = concat_all(gs.skip(1));
            if after.len() < rest.len() {
                seq![gs[0]] + wrap_lines(after, max)
            } else {
                seq![gs[0]]
            }
        } else {
            let after = trim_start(concat_all(gs.skip(t)));
            if after.len() < rest.len() {
                seq![line] + wrap_lines(after, max)
            } else {
                seq![line]
            }
        }
    }
}

/// The lines of a dialog paragraph `para` at `max_width` columns (at least
/// one): a blank paragraph is one empty line.
pub open spec fn modal_lines(para: Seq<char>, max_width: nat) -> Seq<Seq<char>> {
    let m = if max_width == 0 {
        1
    } else {
        max_width
    };
    let s = trim_end(para);
    if s.len() == 0 {
        seq![Seq::empty()]
    } else {
        wrap_lines(s, m)
    }
}

fn scan_fit(gs: &Vec<String>, m: usize) -> (r: (usize, usize))
    ensures
        (r.0 as nat, r.1 as nat) == fit_scan(strings_view(gs@), m as nat, 0, 0, 0, 0),
        r.1 <= r.0 <= gs@.len(),
{
    let ghost v = strings_view(gs@);
    let ghost target = fit_scan(v, m as nat, 0, 0, 0, 0);
    let mut acc: usize = 0;
    let mut fit: usize = 0;
    let mut brk: usize = 0;
    let mut i: usize = 0;
    let mut done = false;
    while i < gs.len() && !done
        invariant
            v == strings_view(gs@),
            target == fit_scan(v, m as nat, 0, 0, 0, 0),
            i <= gs@.len(),
            acc <= m,
            brk <= fit <= gs@.len(),
            !done ==> fit == i && fit_scan(v, m as nat, i as int, acc as nat, fit as nat, brk as nat)
                == target,
            done ==> (fit as nat, brk as nat) == target,
        decreases gs@.len() - i + if done {
            0int
        } else {
            1int
        },
    {
        let gw = str_width(gs[i].as_str());
        assert(v[i as int] == gs@[i as int]@);
        if gw > m - acc {
            done = true;
        } else {
            let gc = text_chars(gs[i].as_str());
            let space = chars_are(&gc, " ");
            acc = acc + gw;
            i = i + 1;
            fit = i;
            if space {
                brk = i;
            }
        }
    }
    (fit, brk)
}

/// The texts `gs[a..b]` one after another.
fn concat_range(gs: &Vec<String>, a: usize, b: usize) -> (s: String)
    requires
        a <= b <= gs@.len(),
    ensures
        s@ == concat_all(strings_view(gs@).subrange(a as int, b as int)),
{
    let ghost v = strings_view(gs@);
    let mut s = String::new();
    let mut i: usize = a;
    assert(v.subrange(a as int, a as int) =~= Seq::<Seq<char>>::empty());
    while i < b
        invariant
            a <= i <= b <= gs@.len(),
            v == strings_view(gs@),
            s@ == concat_all(v.subrange(a as int, i as int)),
        decreases b - i,
    {
        s.append(gs[i].as_str());
        assert(v.subrange(a as int, i + 1).drop_last() =~= v.subrange(a as int, i as int));
        i = i + 1;
    }
    s
}

/// Wraps a paragraph of a dialog into lines of at most `max_width` columns
/// (at least one).
pub fn wrap_modal_paragraph(para: &str, max_width: usize) -> (lines: Vec<String>)
    ensures
        strings_view(lines@) == modal_lines(para@, max_width as nat),
{
    let m = if max_width == 0 {
        1
    } else {
        max_width
    };
    let pv = text_chars(para);
    let s = trim_end_chars(&pv);
    let mut out: Vec<String> = Vec::new();
    if s.len() == 0 {
        out.push(String::new());
        assert(strings_view(out@) =~= seq![Seq::<char>::empty()]);
        return out;
    }
    let ghost whole = wrap_lines(s@, m as nat);
    let mut rest: Vec<char> = s;
    loop
        invariant
            m == (if max_width == 0 {
                1usize
            } else {
                max_width
            }),
            trim_end(para@).len() > 0,
            whole == wrap_lines(trim_end(para@), m as nat),
            strings_view(out@) + wrap_lines(rest@, m as nat) == whole,
        decreases rest@.len(),
    {
        if rest.len() == 0 {
            assert(strings_view(out@) =~= whole);
            return out;
        }
        let rs = string_of_chars(&rest);
        let w = str_width(rs.as_str());
        if w <= m {
            let ghost before = out@;
            out.push(rs);
            assert(strings_view(out@) =~= strings_view(before) + wrap_lines(rest@, m as nat));
            return out;
        }
        let gs = graphemes_of(rs.as_str());
        let ghost gv = strings_view(gs@);
        proof {
            assert(gv.len() > 0) by {
                if gv.len() == 0 {
                    assert(concat_all(gv) =~= Seq::<char>::empty());
                }
            }
            assert(gv[0] == gs@[0]@);
        }
        let (fit, brk) = scan_fit(&gs, m);
        let t0 = if brk > 0 {
            brk
        } else if fit > 0 {
            fit
        } else {
            1
        };
        let t = if t0 <= gs.len() {
            t0
        } else {
            gs.len()
        };
        assert(t as int == line_take(gv, m as nat));
        assert(gv.subrange(0, t as int) =~= gv.take(t as int));
        let raw_line = concat_range(&gs, 0, t);
        let rlc = text_chars(raw_line.as_str());
        let line = trim_end_chars(&rlc);
        let ghost before = out@;
        let ghost old_rest = rest@;
        if line.len() == 0 {
            assert(gv.subrange(1, gv.len() as int) =~= gv.skip(1));
            let after = concat_range(&gs, 1, gs.len());
            proof {
                assert(gv =~= seq![gv[0]] + gv.skip(1));
                lemma_concat_all_append(seq![gv[0]], gv.skip(1));
                assert(concat_all(seq![gv[0]]) =~= gv[0]) by {
                    assert(seq![gv[0]].drop_last() =~= Seq::<Seq<char>>::empty());
                    assert(concat_all(Seq::<Seq<char>>::empty()) =~= Seq::<char>::empty());
                    assert(Seq::<char>::empty() + gv[0] =~= gv[0]);
                }
            }
            out.push(gs[0].clone());
            rest = text_chars(after.as_str());
            assert(strings_view(out@) =~= strings_view(before).push(gv[0]));
            assert(wrap_lines(old_rest, m as nat) =~= seq![gv[0]] + wrap_lines(rest@, m as nat));
        } else {
            assert(gv.subrange(t as int, gv.len() as int) =~= gv.skip(t as int));
            let next = concat_range(&gs, t, gs.len());
            let nc = text_chars(next.as_str());
            let after = trim_start_chars(&nc);
            proof {
                assert(gv =~= gv.take(t as int) + gv.skip(t as int));
                lemma_concat_all_append(gv.take(t as int), gv.skip(t as int));
                lemma_concat_all_len(gv.take(t as int), 0);
                assert(gv.take(t as int)[0] == gv[0]);
                lemma_trim_start_len(nc@);
            }
            out.push(string_of_chars(&line));
            rest = after;
            assert(strings_view(out@) =~= strings_view(before).push(line@));
            assert(wrap_lines(old_rest, m as nat) =~= seq![line@] + wrap_lines(rest@, m as nat));
        }
        assert(strings_view(out@) + wrap_lines(rest@, m as nat) =~= strings_view(before) + wrap_lines(
            old_rest,
            m as nat,
        ));
    }
}

} // verus!
