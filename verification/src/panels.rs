//! What the dialogs, the start menu and the save message show, and where
//! they go on the screen.

use vstd::prelude::*;

use crate::commands::{
    command_items, command_list, filtered_palette_items, items_view, palette_keep, pieces, split_chars,
    OverlayMode, UiState,
};
use crate::session::UiStateView;
use crate::strings::ascii_lowered;
use crate::config::{theme_color, theme_color_in, Theme, ThemeRole};
use crate::render::{
    centered_rect, menu_item_style, min_u16, modal_lines, resolve_start_menu_item_style,
    rows_view, spans_view, str_width, strings_view, text_columns, wrap_modal_paragraph, Area, CellStyle,
    ScreenSpan, SpanView,
};
use crate::strings::string_of_chars;

verus! {

/// A row of one unstyled text.
pub open spec fn raw_row(t: Seq<char>) -> Seq<SpanView> {
    seq![SpanView { text: t, style: None }]
}

/// A row of one styled text.
pub open spec fn styled_row(t: Seq<char>, s: CellStyle) -> Seq<SpanView> {
    seq![SpanView { text: t, style: Some(s) }]
}

/// Text in the color of `role`.
pub open spec fn fg_style(theme: Seq<Seq<char>>, role: ThemeRole) -> CellStyle {
    CellStyle { fg: Some(theme_color(theme, role)), bg: None, underlined: false, bold: false }
}

/// A section heading of a dialog: bold, in the accent color.
pub open spec fn heading_style(theme: Seq<Seq<char>>) -> CellStyle {
    CellStyle {
        fg: Some(theme_color(theme, ThemeRole::Accent)),
        bg: None,
        underlined: false,
        bold: true,
    }
}

/// What a message about something missing looks like.
pub open spec fn missing_style(theme: Seq<Seq<char>>) -> CellStyle {
    fg_style(theme, ThemeRole::LinkMissing)
}

fn push_raw(lines: &mut Vec<Vec<ScreenSpan>>, t: &str)
    ensures
        rows_view(final(lines)@) == rows_view(old(lines)@).push(raw_row(t@)),
{
    let mut row: Vec<ScreenSpan> = Vec::new();
    row.push(ScreenSpan { text: t.to_string(), style: None });
    assert(spans_view(row@) =~= raw_row(t@));
    lines.push(row);
    assert(rows_view(lines@) =~= rows_view(old(lines)@).push(raw_row(t@)));
}

fn push_styled(lines: &mut Vec<Vec<ScreenSpan>>, t: String, s: CellStyle)
    ensures
        rows_view(final(lines)@) == rows_view(old(lines)@).push(styled_row(t@, s)),
{
    let ghost tv = t@;
    let mut row: Vec<ScreenSpan> = Vec::new();
    row.push(ScreenSpan { text: t, style: Some(s) });
    assert(spans_view(row@) =~= styled_row(tv, s));
    lines.push(row);
    assert(rows_view(lines@) =~= rows_view(old(lines)@).push(styled_row(tv, s)));
}

/// What a screen too small for the editor says, by its width.
pub fn too_small_message(width: u16) -> (m: &'static str)
    ensures
        m@ == if width >= 24 {
            "terminal too small"@
        } else if width >= 8 {
            "too small"@
        } else {
            "..."@
        },
{
    if width >= 24 {
        "terminal too small"
    } else if width >= 8 {
        "too small"
    } else {
        "..."
    }
}

/// Width of the save-message dialog on a screen `frame_width` wide.
pub open spec fn feedback_width(frame_width: u16) -> u16 {
    let w = if frame_width >= 24 {
        frame_width
    } else {
        24
    };
    if w <= 70 {
        w
    } else {
        70
    }
}

/// The lines of the text `body` of the save-message dialog: each of its
/// `\n`-separated paragraphs wrapped to the dialog.
pub open spec fn feedback_text_lines(body: Seq<char>, frame_width: u16) -> Seq<Seq<char>> {
    let inner = if feedback_width(frame_width) >= 4 {
        feedback_width(frame_width) - 4
    } else {
        0
    };
    let m = if inner >= 16 {
        inner
    } else {
        16
    };
    let ps = pieces(body, '\n');
    flatten_lines(Seq::new(ps.len(), |i: int| modal_lines(ps[i], m as nat)))
}

/// The lines of `v`, one list after another.
pub open spec fn flatten_lines(v: Seq<Seq<Seq<char>>>) -> Seq<Seq<char>>
    decreases v.len(),
{
    if v.len() == 0 {
        Seq::empty()
    } else {
        flatten_lines(v.drop_last()) + v.last()
    }
}

/// The rows of the save-message dialog for message lines `text`.
pub open spec fn feedback_rows(text: Seq<Seq<char>>) -> Seq<Seq<SpanView>> {
    (seq![raw_row(""@)] + Seq::new(text.len(), |i: int| raw_row(text[i]))).push(raw_row(""@)).push(
        raw_row("  Esc or Enter: dismiss"@),
    )
}

/// Height of the save-message dialog with `n` message lines on a screen
/// `frame_height` high.
pub open spec fn feedback_height(n: nat, frame_height: u16) -> u16 {
    let content: int = if n == 0 {
        1
    } else {
        (n as u16) as int
    };
    let grown: int = if content + 6 > u16::MAX {
        u16::MAX as int
    } else {
        content + 6
    };
    let room: int = if frame_height >= 8 {
        frame_height as int
    } else {
        8
    };
    let h = if grown <= room {
        grown
    } else {
        room
    };
    if h >= 8 {
        h as u16
    } else {
        8
    }
}

/// The save-message dialog for `body` on the screen `frame`: where it goes
/// and its rows.
pub fn feedback_panel(frame: Area, body: &str) -> (r: (Area, Vec<Vec<ScreenSpan>>))
    requires
        frame.x + frame.width <= u16::MAX,
        frame.y + frame.height <= u16::MAX,
    ensures
        ({
            let text = feedback_text_lines(body@, frame.width);
            let w = feedback_width(frame.width);
            let h = feedback_height(text.len(), frame.height);
            &&& rows_view(r.1@) == feedback_rows(text)
            &&& r.0.width == min_u16(w, frame.width)
            &&& r.0.height == min_u16(h, frame.height)
            &&& r.0.x == frame.x + (frame.width - r.0.width) / 2
            &&& r.0.y == frame.y + (frame.height - r.0.height) / 2
        }),
{
    let fw = if frame.width >= 24 {
        frame.width
    } else {
        24
    };
    let modal_w: u16 = if fw <= 70 {
        fw
    } else {
        70
    };
    let inner_w: usize = if modal_w >= 4 {
        (modal_w - 4) as usize
    } else {
        0
    };
    let m: usize = if inner_w >= 16 {
        inner_w
    } else {
        16
    };
    let bc = crate::text::text_chars(body);
    let ps = split_chars(&bc, '\n');
    let ghost pv = pieces(body@, '\n');
    let ghost groups = Seq::new(pv.len(), |i: int| modal_lines(pv[i], m as nat));
    let mut text: Vec<String> = Vec::new();
    let mut i: usize = 0;
    assert(groups.take(0) =~= Seq::<Seq<Seq<char>>>::empty());
    while i < ps.len()
        invariant
            i <= ps@.len(),
            ps@.len() == pv.len(),
            forall|k: int| 0 <= k < ps@.len() ==> #[trigger] ps@[k]@ == pv[k],
            groups == Seq::new(pv.len(), |k: int| modal_lines(pv[k], m as nat)),
            strings_view(text@) == flatten_lines(groups.take(i as int)),
        decreases ps@.len() - i,
    {
        let para = string_of_chars(&ps[i]);
        let wrapped = wrap_modal_paragraph(para.as_str(), m);
        let ghost before = text@;
        let mut j: usize = 0;
        while j < wrapped.len()
            invariant
                j <= wrapped@.len(),
                strings_view(text@) == strings_view(before) + strings_view(wrapped@).take(j as int),
            decreases wrapped@.len() - j,
        {
            let ghost t0 = text@;
            let w = wrapped[j].clone();
            text.push(w);
            assert(text@ == t0.push(wrapped@[j as int]));
            assert(strings_view(text@) =~= strings_view(t0).push(wrapped@[j as int]@));
            assert(strings_view(wrapped@).take(j + 1) =~= strings_view(wrapped@).take(j as int).push(
                wrapped@[j as int]@,
            ));
            assert(strings_view(text@) =~= strings_view(before) + strings_view(wrapped@).take(
                j + 1,
            ));
            j = j + 1;
        }
        assert(strings_view(wrapped@).take(j as int) =~= strings_view(wrapped@));
        assert(groups.take(i + 1).drop_last() =~= groups.take(i as int));
        assert(groups[i as int] == strings_view(wrapped@));
        i = i + 1;
    }
    assert(groups.take(i as int) =~= groups);
    let ghost tv = strings_view(text@);
    let n = text.len();
    let content: u16 = if n == 0 {
        1
    } else {
        #[verifier::truncate]
        (n as u16)
    };
    let grown: u16 = if content > u16::MAX - 6 {
        u16::MAX
    } else {
        content + 6
    };
    let room: u16 = if frame.height >= 8 {
        frame.height
    } else {
        8
    };
    let h0 = if grown <= room {
        grown
    } else {
        room
    };
    let h: u16 = if h0 >= 8 {
        h0
    } else {
        8
    };
    let area = centered_rect(frame, modal_w, h);
    let mut rows: Vec<Vec<ScreenSpan>> = Vec::new();
    push_raw(&mut rows, "");
    assert(rows_view(rows@) =~= seq![raw_row(""@)] + Seq::new(0, |q: int| raw_row(tv[q])));
    let mut k: usize = 0;
    while k < text.len()
        invariant
            k <= text@.len(),
            tv == strings_view(text@),
            rows_view(rows@) == seq![raw_row(""@)] + Seq::new(
                k as nat,
                |q: int| raw_row(tv[q]),
            ),
        decreases text@.len() - k,
    {
        let ghost before = rows_view(rows@);
        let mut row: Vec<ScreenSpan> = Vec::new();
        row.push(ScreenSpan { text: text[k].clone(), style: None });
        assert(spans_view(row@) =~= raw_row(tv[k as int]));
        rows.push(row);
        assert(rows_view(rows@) =~= before.push(raw_row(tv[k as int])));
        assert(seq![raw_row(""@)] + Seq::new((k + 1) as nat, |q: int| raw_row(tv[q]))
            =~= (seq![raw_row(""@)] + Seq::new(k as nat, |q: int| raw_row(tv[q]))).push(
            raw_row(tv[k as int]),
        ));
        k = k + 1;
    }
    push_raw(&mut rows, "");
    push_raw(&mut rows, "  Esc or Enter: dismiss");
    assert(rows_view(rows@) =~= feedback_rows(tv));
    (area, rows)
}

/// Bold text in the surrounding colors.
pub open spec fn bold_style() -> CellStyle {
    CellStyle { fg: None, bg: None, underlined: false, bold: true }
}

/// The rows of the start menu: the title art `title` (then a blank row),
/// the heading, the commands with the selected one marked, and the hint.
pub open spec fn menu_rows(title: Seq<Seq<char>>, selected: usize, theme: Seq<Seq<char>>) -> Seq<
    Seq<SpanView>,
> {
    let art = Seq::new(title.len(), |i: int| styled_row(title[i], fg_style(theme, ThemeRole::Accent)));
    let gap = if title.len() > 0 {
        seq![raw_row(""@)]
    } else {
        Seq::empty()
    };
    let items = Seq::new(
        command_list().len(),
        |i: int|
            styled_row(
                (if i == selected {
                    "> "@
                } else {
                    "  "@
                }) + command_list()[i].0,
                menu_item_style(i == selected, theme),
            ),
    );
    (art + gap).push(styled_row("Start Menu"@, bold_style())).push(raw_row(""@)) + items.push(
        raw_row(""@),
    ).push(styled_row("Enter: select  F1 or Ctrl+H: help"@, fg_style(theme, ThemeRole::Foreground)))
}

/// The widest of the one-span rows `rows`, in columns.
pub open spec fn widest(rows: Seq<Seq<SpanView>>) -> nat
    decreases rows.len(),
{
    if rows.len() == 0 {
        0
    } else {
        let w = if rows.last().len() > 0 {
            text_columns(rows.last()[0].text)
        } else {
            0
        };
        let rest = widest(rows.drop_last());
        if w > rest {
            w
        } else {
            rest
        }
    }
}

/// The start menu on the screen `full`: centered, as wide as its widest
/// row and as high as its rows, cut to the screen.
pub fn start_menu_panel(full: Area, ui_state: &UiState, theme: &Theme) -> (r: (Area, Vec<Vec<ScreenSpan>>))
    requires
        full.x + full.width <= u16::MAX,
        full.y + full.height <= u16::MAX,
    ensures
        ({
            let rows = menu_rows(
                Seq::new(
                    ui_state.start_menu_title_lines@.len(),
                    |i: int| ui_state.start_menu_title_lines@[i]@,
                ),
                ui_state.menu_selected,
                theme@,
            );
            let mw = (widest(rows) as u16);
            let w = min_u16(if mw >= 1 { mw } else { 1 }, full.width);
            let nh = (rows.len() as u16);
            let h = min_u16(if nh >= 1 { nh } else { 1 }, full.height);
            &&& rows_view(r.1@) == rows
            &&& r.0.width == min_u16(w, full.width)
            &&& r.0.height == min_u16(h, full.height)
            &&& r.0.x == full.x + (full.width - r.0.width) / 2
            &&& r.0.y == full.y + (full.height - r.0.height) / 2
        }),
{
    let ghost title = Seq::new(
        ui_state.start_menu_title_lines@.len(),
        |i: int| ui_state.start_menu_title_lines@[i]@,
    );
    let ghost th = theme@;
    let ghost sel = ui_state.menu_selected;
    let ghost target = menu_rows(title, sel, th);
    let mut rows: Vec<Vec<ScreenSpan>> = Vec::new();
    let accent = CellStyle {
        fg: Some(theme_color_in(theme, ThemeRole::Accent)),
        bg: None,
        underlined: false,
        bold: false,
    };
    let n = ui_state.start_menu_title_lines.len();
    let mut i: usize = 0;
    while i < n
        invariant
            i <= n,
            n == ui_state.start_menu_title_lines@.len(),
            title == Seq::new(
                ui_state.start_menu_title_lines@.len(),
                |k: int| ui_state.start_menu_title_lines@[k]@,
            ),
            accent == fg_style(theme@, ThemeRole::Accent),
            rows_view(rows@) == Seq::new(
                i as nat,
                |k: int| styled_row(title[k], fg_style(theme@, ThemeRole::Accent)),
            ),
        decreases n - i,
    {
        let ghost before = rows_view(rows@);
        push_styled(&mut rows, ui_state.start_menu_title_lines[i].clone(), accent);
        assert(rows_view(rows@) =~= Seq::new(
            (i + 1) as nat,
            |k: int| styled_row(title[k], fg_style(theme@, ThemeRole::Accent)),
        ));
        i = i + 1;
    }
    let ghost art = rows_view(rows@);
    if n > 0 {
        push_raw(&mut rows, "");
    }
    push_styled(
        &mut rows,
        "Start Menu".to_string(),
        CellStyle { fg: None, bg: None, underlined: false, bold: true },
    );
    push_raw(&mut rows, "");
    let ghost head = rows_view(rows@);
    let items = command_items();
    assert(items@.len() == items_view(items@).len());
    let ghost iv = Seq::new(
        command_list().len(),
        |k: int|
            styled_row(
                (if k == sel {
                    "> "@
                } else {
                    "  "@
                }) + command_list()[k].0,
                menu_item_style(k == sel, th),
            ),
    );
    let mut j: usize = 0;
    while j < items.len()
        invariant
            j <= items@.len(),
            items_view(items@) == command_list(),
            sel == ui_state.menu_selected,
            th == theme@,
            iv == Seq::new(
                command_list().len(),
                |k: int|
                    styled_row(
                        (if k == sel {
                            "> "@
                        } else {
                            "  "@
                        }) + command_list()[k].0,
                        menu_item_style(k == sel, th),
                    ),
            ),
            rows_view(rows@) == head + iv.take(j as int),
        decreases items@.len() - j,
    {
        let selected = j == ui_state.menu_selected;
        let style = resolve_start_menu_item_style(selected, theme);
        let mut t = if selected {
            "> ".to_string()
        } else {
            "  ".to_string()
        };
        t.append(items[j].0);
        assert(items_view(items@)[j as int].0 == items@[j as int].0@);
        let ghost before = rows_view(rows@);
        push_styled(&mut rows, t, style);
        assert(iv.take(j + 1) =~= iv.take(j as int).push(iv[j as int]));
        assert(rows_view(rows@) =~= head + iv.take(j + 1));
        j = j + 1;
    }
    assert(iv.take(j as int) =~= iv);
    push_raw(&mut rows, "");
    push_styled(
        &mut rows,
        "Enter: select  F1 or Ctrl+H: help".to_string(),
        CellStyle {
            fg: Some(theme_color_in(theme, ThemeRole::Foreground)),
            bg: None,
            underlined: false,
            bold: false,
        },
    );
    assert(rows_view(rows@) =~= target);
    let mut max_w: usize = 0;
    let mut q: usize = 0;
    while q < rows.len()
        invariant
            q <= rows@.len(),
            rows_view(rows@) == target,
            max_w as nat == widest(target.take(q as int)),
        decreases rows@.len() - q,
    {
        assert(target[q as int] == spans_view(rows@[q as int]@));
        let wq = if rows[q].len() > 0 {
            str_width(rows[q][0].text.as_str())
        } else {
            0
        };
        assert(target.take(q + 1).drop_last() =~= target.take(q as int));
        if wq > max_w {
            max_w = wq;
        }
        q = q + 1;
    }
    assert(target.take(q as int) =~= target);
    let mw: u16 = #[verifier::truncate]
    (max_w as u16);
    let w0 = if mw >= 1 {
        mw
    } else {
        1
    };
    let w = if w0 <= full.width {
        w0
    } else {
        full.width
    };
    let nh: u16 = #[verifier::truncate]
    (rows.len() as u16);
    let h0 = if nh >= 1 {
        nh
    } else {
        1
    };
    let h = if h0 <= full.height {
        h0
    } else {
        full.height
    };
    (centered_rect(full, w, h), rows)
}

/// A dialog: its size, its title, and its rows.
pub struct Panel {
    pub width: u16,
    pub height: u16,
    pub title: &'static str,
    pub rows: Vec<Vec<ScreenSpan>>,
}

pub struct PanelView {
    pub width: u16,
    pub height: u16,
    pub title: Seq<char>,
    pub rows: Seq<Seq<SpanView>>,
}

impl View for Panel {
    type V = PanelView;

    open spec fn view(&self) -> PanelView {
        PanelView { width: self.width, height: self.height, title: self.title@, rows: rows_view(self.rows@) }
    }
}

/// A list entry: the selected one on the selection colors.
pub open spec fn list_item_style(selected: bool, theme: Seq<Seq<char>>) -> CellStyle {
    if selected {
        CellStyle {
            fg: Some(theme_color(theme, ThemeRole::ListSelectionForeground)),
            bg: Some(theme_color(theme, ThemeRole::ListSelectionBackground)),
            underlined: false,
            bold: false,
        }
    } else {
        fg_style(theme, ThemeRole::Foreground)
    }
}

/// The mark before a list entry.
pub open spec fn mark(selected: bool) -> Seq<char> {
    if selected {
        ">"@
    } else {
        " "@
    }
}

/// The first `cap` entries `texts` of a list, the `sel`-th marked.
pub open spec fn listed(texts: Seq<Seq<char>>, sel: usize, cap: nat, theme: Seq<Seq<char>>) -> Seq<
    Seq<SpanView>,
> {
    let n = if texts.len() < cap {
        texts.len()
    } else {
        cap
    };
    Seq::new(
        n,
        |i: int| styled_row(mark(i == sel) + " "@ + texts[i], list_item_style(i == sel, theme)),
    )
}

pub open spec fn help_rows(theme: Seq<Seq<char>>) -> Seq<Seq<SpanView>> {
    Seq::empty().push(raw_row(" Help "@)).push(raw_row(""@)).push(
        styled_row("Navigation"@, heading_style(theme)),
    ).push(raw_row("  Arrows / Home / End: move cursor"@)).push(
        raw_row("  Shift+Arrows/Home/End: extend selection"@),
    ).push(raw_row("  PgUp/PgDn or wheel: scroll"@)).push(raw_row(""@)).push(
        styled_row("Actions"@, heading_style(theme)),
    ).push(raw_row("  Ctrl+S: save   Ctrl+Q: quit"@)).push(raw_row(""@)).push(
        styled_row("UI"@, heading_style(theme)),
    ).push(raw_row("  Ctrl+P: command palette   Ctrl+M: menu"@)).push(
        raw_row("  Ctrl+K: hide/show frame & status (focus mode)"@),
    ).push(raw_row("  F1 or Ctrl+H: help        F2: status detail toggle"@)).push(
        raw_row("Esc: return to main menu"@),
    )
}

pub open spec fn recent_rows(texts: Seq<Seq<char>>, sel: usize, theme: Seq<Seq<char>>) -> Seq<
    Seq<SpanView>,
> {
    let head = Seq::empty().push(raw_row(" Recent Documents "@)).push(raw_row(""@));
    if texts.len() == 0 {
        head.push(styled_row("  No recent documents yet"@, missing_style(theme))).push(
            raw_row("  Open a document from Writing folder first."@),
        ).push(raw_row(""@)).push(raw_row("  Tip: Press Esc, then Ctrl+M to open the main menu."@))
    } else {
        (head + listed(texts, sel, 10, theme)).push(raw_row(""@)).push(
            raw_row("  Enter: open   Esc: main menu   F1 or Ctrl+H: help"@),
        )
    }
}

pub open spec fn writing_rows(
    root: Seq<char>,
    err: Option<Seq<char>>,
    texts: Seq<Seq<char>>,
    sel: usize,
    theme: Seq<Seq<char>>,
) -> Seq<Seq<SpanView>> {
    let head = Seq::empty().push(raw_row(" Writing folder "@)).push(raw_row(""@)).push(
        raw_row("  "@ + root),
    ).push(raw_row(""@));
    match err {
        Some(e) => (head + Seq::new(
            modal_lines(e, 66).len(),
            |i: int| styled_row("  "@ + modal_lines(e, 66)[i], missing_style(theme)),
        )).push(raw_row(""@)).push(
            raw_row("  Create the folder or set [paths].writing_folder \u{2014} Esc: main menu"@),
        ),
        None => if texts.len() == 0 {
            head.push(styled_row("  No matching files here (.md/.txt/.toml)."@, missing_style(theme))).push(
                raw_row("  Add files or change [paths].writing_folder in your config."@),
            ).push(raw_row(""@)).push(raw_row("  Esc: main menu   Ctrl+M: main menu"@))
        } else {
            (head + listed(texts, sel, 10, theme)).push(raw_row(""@)).push(
                raw_row("  Enter: open   Esc: main menu   F1 or Ctrl+H: help"@),
            )
        },
    }
}

pub open spec fn configuration_rows() -> Seq<Seq<SpanView>> {
    Seq::empty().push(raw_row(" Configuration "@)).push(raw_row(""@)).push(
        raw_row("Could not open configuration file."@),
    ).push(raw_row("Prefer: scripts/install-config.sh from the repo."@)).push(
        raw_row("R/Enter: retry open"@),
    ).push(raw_row("C: create default config here and open"@)).push(
        raw_row("Esc: return to main menu"@),
    )
}

/// The titles of the palette's matches for `query`.
pub open spec fn palette_names(query: Seq<char>) -> Seq<Seq<char>> {
    let items = palette_keep(command_list(), ascii_lowered(query));
    Seq::new(items.len(), |i: int| items[i].0)
}

pub open spec fn palette_rows(query: Seq<char>, sel: usize, theme: Seq<Seq<char>>) -> Seq<Seq<SpanView>> {
    let names = palette_names(query);
    let body = Seq::empty().push(raw_row("> "@ + query)).push(raw_row(""@)) + listed(
        names,
        sel,
        6,
        theme,
    );
    let body2 = if names.len() == 0 {
        body.push(styled_row("  No matches"@, missing_style(theme)))
    } else {
        body
    };
    body2.push(raw_row(""@)).push(raw_row("  Enter: run command   Esc: main menu   F1 or Ctrl+H: help"@))
}

/// Height of the palette with `n` matches: up to six listed, five rows
/// around them, at least eight.
pub open spec fn palette_height(n: nat) -> u16 {
    let shown: int = if n < 6 {
        n as int
    } else {
        6
    };
    if shown + 5 >= 8 {
        (shown + 5) as u16
    } else {
        8
    }
}

pub open spec fn new_document_rows(root: Seq<char>, input: Seq<char>) -> Seq<Seq<SpanView>> {
    Seq::empty().push(raw_row(" Enter a filename for your new document "@)).push(raw_row(""@)).push(
        raw_row("  Folder: "@ + root),
    ).push(raw_row(""@)).push(raw_row("> "@ + input)).push(raw_row(""@)).push(
        raw_row("  Basename only. Extension optional (.md if omitted); .md, .txt, or .toml."@),
    ).push(raw_row("  Enter: create   Esc: main menu"@))
}

/// The dialog that the overlay of `ui` shows (none for the editor and the
/// start menu), with the writing folder shown as `root`, the recent
/// documents and folder entries shown as `recent` and `entries`, and the
/// folder's error `err`.
pub open spec fn overlay_panel_spec(
    ui: UiStateView,
    theme: Seq<Seq<char>>,
    root: Seq<char>,
    recent: Seq<Seq<char>>,
    entries: Seq<Seq<char>>,
    err: Option<Seq<char>>,
) -> Option<PanelView> {
    match ui.overlay {
        OverlayMode::Help => Some(PanelView { width: 76, height: 20, title: " Help "@, rows: help_rows(theme) }),
        OverlayMode::RecentDocuments => Some(
            PanelView {
                width: 70,
                height: 16,
                title: " Recent Documents "@,
                rows: recent_rows(recent, ui.list_selected, theme),
            },
        ),
        OverlayMode::WritingFolder => Some(
            PanelView {
                width: 76,
                height: 16,
                title: " Writing folder "@,
                rows: writing_rows(root, err, entries, ui.list_selected, theme),
            },
        ),
        OverlayMode::Configuration => Some(
            PanelView { width: 76, height: 11, title: " Configuration "@, rows: configuration_rows() },
        ),
        OverlayMode::CommandPalette => Some(
            PanelView {
                width: 60,
                height: palette_height(palette_names(ui.palette_query).len()),
                title: " Command Palette "@,
                rows: palette_rows(ui.palette_query, ui.palette_selected, theme),
            },
        ),
        OverlayMode::NewDocumentFilename => Some(
            PanelView {
                width: 70,
                height: 13,
                title: " New document "@,
                rows: new_document_rows(root, ui.new_document_filename_input),
            },
        ),
        _ => None,
    }
}

fn concat_text(a: &str, b: &str) -> (s: String)
    ensures
        s@ == a@ + b@,
{
    let mut s = a.to_string();
    s.append(b);
    s
}

fn push_listed(
    rows: &mut Vec<Vec<ScreenSpan>>,
    texts: &Vec<String>,
    sel: usize,
    cap: usize,
    theme: &Theme,
)
    ensures
        rows_view(final(rows)@) == rows_view(old(rows)@) + listed(
            strings_view(texts@),
            sel,
            cap as nat,
            theme@,
        ),
{
    let ghost tv = strings_view(texts@);
    let ghost l = listed(tv, sel, cap as nat, theme@);
    let ghost start = rows_view(rows@);
    let n = if texts.len() < cap {
        texts.len()
    } else {
        cap
    };
    let mut i: usize = 0;
    while i < n
        invariant
            i <= n,
            n <= texts@.len(),
            n == l.len(),
            tv == strings_view(texts@),
            l == listed(tv, sel, cap as nat, theme@),
            rows_view(rows@) == start + l.take(i as int),
        decreases n - i,
    {
        let selected = i == sel;
        let style = if selected {
            CellStyle {
                fg: Some(theme_color_in(theme, ThemeRole::ListSelectionForeground)),
                bg: Some(theme_color_in(theme, ThemeRole::ListSelectionBackground)),
                underlined: false,
                bold: false,
            }
        } else {
            CellStyle {
                fg: Some(theme_color_in(theme, ThemeRole::Foreground)),
                bg: None,
                underlined: false,
                bold: false,
            }
        };
        let m = if selected {
            ">"
        } else {
            " "
        };
        let t = concat_text(concat_text(m, " ").as_str(), texts[i].as_str());
        assert(tv[i as int] == texts@[i as int]@);
        push_styled(rows, t, style);
        assert(l.take(i + 1) =~= l.take(i as int).push(l[i as int]));
        assert(rows_view(rows@) =~= start + l.take(i + 1));
        i = i + 1;
    }
    assert(l.take(i as int) =~= l);
}

fn missing(theme: &Theme) -> (s: CellStyle)
    ensures
        s == missing_style(theme@),
{
    CellStyle {
        fg: Some(theme_color_in(theme, ThemeRole::LinkMissing)),
        bg: None,
        underlined: false,
        bold: false,
    }
}

fn heading(theme: &Theme) -> (s: CellStyle)
    ensures
        s == heading_style(theme@),
{
    CellStyle {
        fg: Some(theme_color_in(theme, ThemeRole::Accent)),
        bg: None,
        underlined: false,
        bold: true,
    }
}

fn help_panel_rows(theme: &Theme) -> (rows: Vec<Vec<ScreenSpan>>)
    ensures
        rows_view(rows@) == help_rows(theme@),
{
    let mut rows: Vec<Vec<ScreenSpan>> = Vec::new();
    assert(rows_view(rows@) =~= Seq::empty());
    push_raw(&mut rows, " Help ");
    push_raw(&mut rows, "");
    push_styled(&mut rows, "Navigation".to_string(), heading(theme));
    push_raw(&mut rows, "  Arrows / Home / End: move cursor");
    push_raw(&mut rows, "  Shift+Arrows/Home/End: extend selection");
    push_raw(&mut rows, "  PgUp/PgDn or wheel: scroll");
    push_raw(&mut rows, "");
    push_styled(&mut rows, "Actions".to_string(), heading(theme));
    push_raw(&mut rows, "  Ctrl+S: save   Ctrl+Q: quit");
    push_raw(&mut rows, "");
    push_styled(&mut rows, "UI".to_string(), heading(theme));
    push_raw(&mut rows, "  Ctrl+P: command palette   Ctrl+M: menu");
    push_raw(&mut rows, "  Ctrl+K: hide/show frame & status (focus mode)");
    push_raw(&mut rows, "  F1 or Ctrl+H: help        F2: status detail toggle");
    push_raw(&mut rows, "Esc: return to main menu");
    rows
}

fn recent_panel_rows(texts: &Vec<String>, sel: usize, theme: &Theme) -> (rows: Vec<Vec<ScreenSpan>>)
    ensures
        rows_view(rows@) == recent_rows(strings_view(texts@), sel, theme@),
{
    let mut rows: Vec<Vec<ScreenSpan>> = Vec::new();
    assert(rows_view(rows@) =~= Seq::empty());
    push_raw(&mut rows, " Recent Documents ");
    push_raw(&mut rows, "");
    if texts.len() == 0 {
        push_styled(&mut rows, "  No recent documents yet".to_string(), missing(theme));
        push_raw(&mut rows, "  Open a document from Writing folder first.");
        push_raw(&mut rows, "");
        push_raw(&mut rows, "  Tip: Press Esc, then Ctrl+M to open the main menu.");
    } else {
        push_listed(&mut rows, texts, sel, 10, theme);
        push_raw(&mut rows, "");
        push_raw(&mut rows, "  Enter: open   Esc: main menu   F1 or Ctrl+H: help");
    }
    rows
}

fn writing_panel_rows(
    root: &str,
    err: Option<&str>,
    texts: &Vec<String>,
    sel: usize,
    theme: &Theme,
) -> (rows: Vec<Vec<ScreenSpan>>)
    ensures
        rows_view(rows@) == writing_rows(
            root@,
            match err {
                Some(e) => Some(e@),
                None => None,
            },
            strings_view(texts@),
            sel,
            theme@,
        ),
{
    let mut rows: Vec<Vec<ScreenSpan>> = Vec::new();
    assert(rows_view(rows@) =~= Seq::empty());
    push_raw(&mut rows, " Writing folder ");
    push_raw(&mut rows, "");
    push_styled_raw(&mut rows, concat_text("  ", root));
    push_raw(&mut rows, "");
    match err {
        Some(e) => {
            let wrapped = wrap_modal_paragraph(e, 66);
            let ghost wl = strings_view(wrapped@);
            let ghost start = rows_view(rows@);
            let ghost part = Seq::new(
                modal_lines(e@, 66).len(),
                |i: int| styled_row("  "@ + modal_lines(e@, 66)[i], missing_style(theme@)),
            );
            let mut i: usize = 0;
            while i < wrapped.len()
                invariant
                    i <= wrapped@.len(),
                    wl == strings_view(wrapped@),
                    wl == modal_lines(e@, 66),
                    part == Seq::new(
                        modal_lines(e@, 66).len(),
                        |k: int| styled_row("  "@ + modal_lines(e@, 66)[k], missing_style(theme@)),
                    ),
                    rows_view(rows@) == start + part.take(i as int),
                decreases wrapped@.len() - i,
            {
                let t = concat_text("  ", wrapped[i].as_str());
                assert(wl[i as int] == wrapped@[i as int]@);
                push_styled(&mut rows, t, missing(theme));
                assert(part.take(i + 1) =~= part.take(i as int).push(part[i as int]));
                assert(rows_view(rows@) =~= start + part.take(i + 1));
                i = i + 1;
            }
            assert(part.take(i as int) =~= part);
            push_raw(&mut rows, "");
            push_raw(&mut rows, "  Create the folder or set [paths].writing_folder \u{2014} Esc: main menu");
        },
        None => {
            if texts.len() == 0 {
                push_styled(
                    &mut rows,
                    "  No matching files here (.md/.txt/.toml).".to_string(),
                    missing(theme),
                );
                push_raw(&mut rows, "  Add files or change [paths].writing_folder in your config.");
                push_raw(&mut rows, "");
                push_raw(&mut rows, "  Esc: main menu   Ctrl+M: main menu");
            } else {
                push_listed(&mut rows, texts, sel, 10, theme);
                push_raw(&mut rows, "");
                push_raw(&mut rows, "  Enter: open   Esc: main menu   F1 or Ctrl+H: help");
            }
        },
    }
    rows
}

fn push_styled_raw(lines: &mut Vec<Vec<ScreenSpan>>, t: String)
    ensures
        rows_view(final(lines)@) == rows_view(old(lines)@).push(raw_row(t@)),
{
    let ghost tv = t@;
    let mut row: Vec<ScreenSpan> = Vec::new();
    row.push(ScreenSpan { text: t, style: None });
    assert(spans_view(row@) =~= raw_row(tv));
    lines.push(row);
    assert(rows_view(lines@) =~= rows_view(old(lines)@).push(raw_row(tv)));
}

fn configuration_panel_rows() -> (rows: Vec<Vec<ScreenSpan>>)
    ensures
        rows_view(rows@) == configuration_rows(),
{
    let mut rows: Vec<Vec<ScreenSpan>> = Vec::new();
    assert(rows_view(rows@) =~= Seq::empty());
    push_raw(&mut rows, " Configuration ");
    push_raw(&mut rows, "");
    push_raw(&mut rows, "Could not open configuration file.");
    push_raw(&mut rows, "Prefer: scripts/install-config.sh from the repo.");
    push_raw(&mut rows, "R/Enter: retry open");
    push_raw(&mut rows, "C: create default config here and open");
    push_raw(&mut rows, "Esc: return to main menu");
    rows
}

fn palette_panel(query: &String, sel: usize, theme: &Theme) -> (r: (u16, Vec<Vec<ScreenSpan>>))
    ensures
        r.0 == palette_height(palette_names(query@).len()),
        rows_view(r.1@) == palette_rows(query@, sel, theme@),
{
    let items = filtered_palette_items(query.as_str());
    let ghost pn = palette_names(query@);
    let mut names: Vec<String> = Vec::new();
    let mut i: usize = 0;
    while i < items.len()
        invariant
            i <= items@.len(),
            items_view(items@) == palette_keep(command_list(), ascii_lowered(query@)),
            pn == palette_names(query@),
            strings_view(names@) == pn.take(i as int),
        decreases items@.len() - i,
    {
        let ghost before = names@;
        names.push(items[i].0.to_string());
        assert(items_view(items@)[i as int].0 == items@[i as int].0@);
        assert(strings_view(names@) =~= strings_view(before).push(pn[i as int]));
        assert(pn.take(i + 1) =~= pn.take(i as int).push(pn[i as int]));
        i = i + 1;
    }
    assert(pn.take(i as int) =~= pn);
    let mut rows: Vec<Vec<ScreenSpan>> = Vec::new();
    assert(rows_view(rows@) =~= Seq::empty());
    push_styled_raw(&mut rows, concat_text("> ", query.as_str()));
    push_raw(&mut rows, "");
    push_listed(&mut rows, &names, sel, 6, theme);
    if names.len() == 0 {
        push_styled(&mut rows, "  No matches".to_string(), missing(theme));
    }
    push_raw(&mut rows, "");
    push_raw(&mut rows, "  Enter: run command   Esc: main menu   F1 or Ctrl+H: help");
    let shown: u16 = if names.len() < 6 {
        names.len() as u16
    } else {
        6
    };
    let h = if shown + 5 >= 8 {
        shown + 5
    } else {
        8
    };
    (h, rows)
}

fn new_document_panel_rows(root: &str, input: &String) -> (rows: Vec<Vec<ScreenSpan>>)
    ensures
        rows_view(rows@) == new_document_rows(root@, input@),
{
    let mut rows: Vec<Vec<ScreenSpan>> = Vec::new();
    assert(rows_view(rows@) =~= Seq::empty());
    push_raw(&mut rows, " Enter a filename for your new document ");
    push_raw(&mut rows, "");
    push_styled_raw(&mut rows, concat_text("  Folder: ", root));
    push_raw(&mut rows, "");
    push_styled_raw(&mut rows, concat_text("> ", input.as_str()));
    push_raw(&mut rows, "");
    push_raw(&mut rows, "  Basename only. Extension optional (.md if omitted); .md, .txt, or .toml.");
    push_raw(&mut rows, "  Enter: create   Esc: main menu");
    rows
}

/// The dialog of the shown overlay, if it has one; `writing_root_text`,
/// `recent_texts` and `entry_texts` are how the writing folder, the recent
/// documents and the folder's entries are shown, and `folder_error` is why
/// the folder could not be listed.
pub fn overlay_panel(
    ui_state: &UiState,
    theme: &Theme,
    writing_root_text: &str,
    recent_texts: &Vec<String>,
    entry_texts: &Vec<String>,
    folder_error: Option<&str>,
) -> (r: Option<Panel>)
    ensures
        match overlay_panel_spec(
            ui_state@,
            theme@,
            writing_root_text@,
            strings_view(recent_texts@),
            strings_view(entry_texts@),
            match folder_error {
                Some(e) => Some(e@),
                None => None,
            },
        ) {
            None => r is None,
            Some(p) => r matches Some(x) && x@ == p,
        },
{
    match ui_state.overlay {
        OverlayMode::Help => Some(Panel { width: 76, height: 20, title: " Help ", rows: help_panel_rows(theme) }),
        OverlayMode::RecentDocuments => Some(
            Panel {
                width: 70,
                height: 16,
                title: " Recent Documents ",
                rows: recent_panel_rows(recent_texts, ui_state.list_selected, theme),
            },
        ),
        OverlayMode::WritingFolder => Some(
            Panel {
                width: 76,
                height: 16,
                title: " Writing folder ",
                rows: writing_panel_rows(
                    writing_root_text,
                    folder_error,
                    entry_texts,
                    ui_state.list_selected,
                    theme,
                ),
            },
        ),
        OverlayMode::Configuration => Some(
            Panel { width: 76, height: 11, title: " Configuration ", rows: configuration_panel_rows() },
        ),
        OverlayMode::CommandPalette => {
            let (h, rows) = palette_panel(&ui_state.palette_query, ui_state.palette_selected, theme);
            Some(Panel { width: 60, height: h, title: " Command Palette ", rows })
        },
        OverlayMode::NewDocumentFilename => Some(
            Panel {
                width: 70,
                height: 13,
                title: " New document ",
                rows: new_document_panel_rows(writing_root_text, &ui_state.new_document_filename_input),
            },
        ),
        _ => None,
    }
}

} // verus!
