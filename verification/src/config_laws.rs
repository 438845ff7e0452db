//! What a configuration table sets: each setting takes the value that the
//! table gives last under that setting's own name, and a table of known
//! names with values in range always loads. Also the color names.

use vstd::prelude::*;

use crate::config::{
    chars_lt, keys_sorted, lemma_sorted_insert_keeps_order,
    merge_keymap_spec, sorted_insert, color_named, cursor_style_of, key_of_role, merge_cursor_spec, merge_editor_spec,
    merge_spacing_spec, merge_theme_spec, merge_typography_spec, merge_ui_spec, role_at,
    role_index, role_of_key, AnsiColor, ConfigValueView, CursorConfig, CursorStyleConfig,
    EditorConfig, SpacingConfig, ThemeRole, TypographyConfig, UiView,
};
use crate::key_laws::{lemma_plain_word_reads, plain_word};
use crate::strings::{ascii_lowered, trimmed};

verus! {

/// The integer that `entries` give last under key `k`, or `d` when they give
/// none.
pub open spec fn int_given(entries: Seq<(Seq<char>, ConfigValueView)>, k: Seq<char>, d: int) -> int
    decreases entries.len(),
{
    if entries.len() == 0 {
        d
    } else {
        int_given(
            entries.drop_first(),
            k,
            match entries[0].1 {
                ConfigValueView::Integer(x) => if entries[0].0 == k {
                    x as int
                } else {
                    d
                },
                _ => d,
            },
        )
    }
}

/// The boolean that `entries` give last under key `k`, or `d` when they
/// give none.
pub open spec fn bool_given(entries: Seq<(Seq<char>, ConfigValueView)>, k: Seq<char>, d: bool) -> bool
    decreases entries.len(),
{
    if entries.len() == 0 {
        d
    } else {
        bool_given(
            entries.drop_first(),
            k,
            match entries[0].1 {
                ConfigValueView::Boolean(b) => if entries[0].0 == k {
                    b
                } else {
                    d
                },
                _ => d,
            },
        )
    }
}

/// Entry `e` gives key `k` an integer in `lo..=hi`.
pub open spec fn sets_int_in(e: (Seq<char>, ConfigValueView), k: Seq<char>, lo: int, hi: int) -> bool {
    &&& e.0 == k
    &&& e.1 matches ConfigValueView::Integer(x) && lo <= x <= hi
}

/// Entry `e` gives key `k` a boolean.
pub open spec fn sets_bool(e: (Seq<char>, ConfigValueView), k: Seq<char>) -> bool {
    e.0 == k && e.1 is Boolean
}

/// A valid `[spacing]` entry: a gap of up to eight lines, or a code margin
/// of up to twelve columns.
pub open spec fn spacing_entry_ok(e: (Seq<char>, ConfigValueView)) -> bool {
    ||| sets_int_in(e, "line_gap_lines"@, 0, 8)
    ||| sets_int_in(e, "paragraph_gap_lines"@, 0, 8)
    ||| sets_int_in(e, "code_margin"@, 0, 12)
}

/// A valid `[typography]` entry: up to four extra columns after a space,
/// up to two after any other char.
pub open spec fn typography_entry_ok(e: (Seq<char>, ConfigValueView)) -> bool {
    ||| sets_int_in(e, "extra_word_spacing"@, 0, 4)
    ||| sets_int_in(e, "extra_letter_spacing"@, 0, 2)
}

/// A valid `[editor]` entry: a tab width of one to twelve, or one of the
/// three switches.
pub open spec fn editor_entry_ok(e: (Seq<char>, ConfigValueView)) -> bool {
    ||| sets_int_in(e, "tab_width"@, 1, 12)
    ||| sets_bool(e, "hard_tabs"@)
    ||| sets_bool(e, "auto_wrap"@)
    ||| sets_bool(e, "show_invisibles"@)
}

proof fn lemma_spacing_names()
    ensures
        "line_gap_lines"@ != "paragraph_gap_lines"@,
        "line_gap_lines"@ != "code_margin"@,
        "paragraph_gap_lines"@ != "code_margin"@,
{
    reveal_strlit("line_gap_lines");
    reveal_strlit("paragraph_gap_lines");
    reveal_strlit("code_margin");
    assert("line_gap_lines"@.len() != "paragraph_gap_lines"@.len());
    assert("line_gap_lines"@.len() != "code_margin"@.len());
    assert("paragraph_gap_lines"@.len() != "code_margin"@.len());
}

/// A `[spacing]` table sets each spacing to the value it gives last under
/// that spacing's name and leaves the others as they were; a table of valid
/// entries always loads.
pub proof fn lemma_spacing_settings(sp: SpacingConfig, entries: Seq<(Seq<char>, ConfigValueView)>)
    ensures
        (forall|i: int| 0 <= i < entries.len() ==> #[trigger] spacing_entry_ok(entries[i]))
            ==> merge_spacing_spec(sp, entries).1 is None,
        merge_spacing_spec(sp, entries).1 is None ==> {
            let r = merge_spacing_spec(sp, entries).0;
            &&& r.line_gap_lines == int_given(entries, "line_gap_lines"@, sp.line_gap_lines as int)
            &&& r.paragraph_gap_lines == int_given(entries, "paragraph_gap_lines"@, sp.paragraph_gap_lines as int)
            &&& r.code_margin == int_given(entries, "code_margin"@, sp.code_margin as int)
        },
    decreases entries.len(),
{
    lemma_spacing_names();
    if entries.len() > 0 {
        let k = entries[0].0;
        let v = entries[0].1;
        let rest = entries.drop_first();
        if forall|i: int| 0 <= i < entries.len() ==> #[trigger] spacing_entry_ok(entries[i]) {
            assert(spacing_entry_ok(entries[0]));
            assert forall|i: int| 0 <= i < rest.len() implies #[trigger] spacing_entry_ok(rest[i]) by {
                assert(rest[i] == entries[i + 1]);
                assert(spacing_entry_ok(entries[i + 1]));
            }
        }
        if k == "line_gap_lines"@ {
            if let ConfigValueView::Integer(x) = v {
                if 0 <= x <= 8 {
                    lemma_spacing_settings(SpacingConfig { line_gap_lines: x as usize, ..sp }, rest);
                }
            }
        } else if k == "paragraph_gap_lines"@ {
            if let ConfigValueView::Integer(x) = v {
                if 0 <= x <= 8 {
                    lemma_spacing_settings(SpacingConfig { paragraph_gap_lines: x as usize, ..sp }, rest);
                }
            }
        } else if k == "code_margin"@ {
            if let ConfigValueView::Integer(x) = v {
                if 0 <= x <= 12 {
                    lemma_spacing_settings(SpacingConfig { code_margin: x as usize, ..sp }, rest);
                }
            }
        }
    }
}

proof fn lemma_typography_names()
    ensures
        "extra_word_spacing"@ != "extra_letter_spacing"@,
{
    reveal_strlit("extra_word_spacing");
    reveal_strlit("extra_letter_spacing");
    assert("extra_word_spacing"@.len() != "extra_letter_spacing"@.len());
}

/// A `[typography]` table sets each spacing to the value it gives last under
/// that spacing's name and leaves the other as it was; a table of valid
/// entries always loads.
pub proof fn lemma_typography_settings(ty: TypographyConfig, entries: Seq<(Seq<char>, ConfigValueView)>)
    ensures
        (forall|i: int| 0 <= i < entries.len() ==> #[trigger] typography_entry_ok(entries[i]))
            ==> merge_typography_spec(ty, entries).1 is None,
        merge_typography_spec(ty, entries).1 is None ==> {
            let r = merge_typography_spec(ty, entries).0;
            &&& r.extra_word_spacing == int_given(entries, "extra_word_spacing"@, ty.extra_word_spacing as int)
            &&& r.extra_letter_spacing == int_given(entries, "extra_letter_spacing"@, ty.extra_letter_spacing as int)
        },
    decreases entries.len(),
{
    lemma_typography_names();
    if entries.len() > 0 {
        let k = entries[0].0;
        let v = entries[0].1;
        let rest = entries.drop_first();
        if forall|i: int| 0 <= i < entries.len() ==> #[trigger] typography_entry_ok(entries[i]) {
            assert(typography_entry_ok(entries[0]));
            assert forall|i: int| 0 <= i < rest.len() implies #[trigger] typography_entry_ok(rest[i]) by {
                assert(rest[i] == entries[i + 1]);
                assert(typography_entry_ok(entries[i + 1]));
            }
        }
        if k == "extra_word_spacing"@ {
            if let ConfigValueView::Integer(x) = v {
                if 0 <= x <= 4 {
                    lemma_typography_settings(TypographyConfig { extra_word_spacing: x as usize, ..ty }, rest);
                }
            }
        } else if k == "extra_letter_spacing"@ {
            if let ConfigValueView::Integer(x) = v {
                if 0 <= x <= 2 {
                    lemma_typography_settings(TypographyConfig { extra_letter_spacing: x as usize, ..ty }, rest);
                }
            }
        }
    }
}

proof fn lemma_editor_names()
    ensures
        "tab_width"@ != "hard_tabs"@,
        "tab_width"@ != "auto_wrap"@,
        "tab_width"@ != "show_invisibles"@,
        "hard_tabs"@ != "auto_wrap"@,
        "hard_tabs"@ != "show_invisibles"@,
        "auto_wrap"@ != "show_invisibles"@,
{
    reveal_strlit("tab_width");
    reveal_strlit("hard_tabs");
    reveal_strlit("auto_wrap");
    reveal_strlit("show_invisibles");
    assert("tab_width"@[0] != "hard_tabs"@[0]);
    assert("tab_width"@[0] != "auto_wrap"@[0]);
    assert("hard_tabs"@[0] != "auto_wrap"@[0]);
    assert("show_invisibles"@.len() != "tab_width"@.len());
}

/// An `[editor]` table sets each setting to the value it gives last under
/// that setting's name and leaves the others as they were; a table of valid
/// entries always loads.
pub proof fn lemma_editor_settings(ed: EditorConfig, entries: Seq<(Seq<char>, ConfigValueView)>)
    ensures
        (forall|i: int| 0 <= i < entries.len() ==> #[trigger] editor_entry_ok(entries[i]))
            ==> merge_editor_spec(ed, entries).1 is None,
        merge_editor_spec(ed, entries).1 is None ==> {
            let r = merge_editor_spec(ed, entries).0;
            &&& r.tab_width == int_given(entries, "tab_width"@, ed.tab_width as int)
            &&& r.hard_tabs == bool_given(entries, "hard_tabs"@, ed.hard_tabs)
            &&& r.auto_wrap == bool_given(entries, "auto_wrap"@, ed.auto_wrap)
            &&& r.show_invisibles == bool_given(entries, "show_invisibles"@, ed.show_invisibles)
        },
    decreases entries.len(),
{
    lemma_editor_names();
    if entries.len() > 0 {
        let k = entries[0].0;
        let v = entries[0].1;
        let rest = entries.drop_first();
        if forall|i: int| 0 <= i < entries.len() ==> #[trigger] editor_entry_ok(entries[i]) {
            assert(editor_entry_ok(entries[0]));
            assert forall|i: int| 0 <= i < rest.len() implies #[trigger] editor_entry_ok(rest[i]) by {
                assert(rest[i] == entries[i + 1]);
                assert(editor_entry_ok(entries[i + 1]));
            }
        }
        if k == "tab_width"@ {
            if let ConfigValueView::Integer(x) = v {
                if 1 <= x <= 12 {
                    lemma_editor_settings(EditorConfig { tab_width: x as usize, ..ed }, rest);
                }
            }
        } else if k == "hard_tabs"@ {
            if let ConfigValueView::Boolean(b) = v {
                lemma_editor_settings(EditorConfig { hard_tabs: b, ..ed }, rest);
            }
        } else if k == "auto_wrap"@ {
            if let ConfigValueView::Boolean(b) = v {
                lemma_editor_settings(EditorConfig { auto_wrap: b, ..ed }, rest);
            }
        } else if k == "show_invisibles"@ {
            if let ConfigValueView::Boolean(b) = v {
                lemma_editor_settings(EditorConfig { show_invisibles: b, ..ed }, rest);
            }
        }
    }
}

/// The name of each ANSI color, as a theme writes it.
pub open spec fn ansi_color_name(c: AnsiColor) -> Seq<char> {
    match c {
        AnsiColor::Black => "black"@,
        AnsiColor::Red => "red"@,
        AnsiColor::Green => "green"@,
        AnsiColor::Yellow => "yellow"@,
        AnsiColor::Blue => "blue"@,
        AnsiColor::Magenta => "magenta"@,
        AnsiColor::Cyan => "cyan"@,
        AnsiColor::White => "white"@,
        AnsiColor::DarkGray => "darkgray"@,
        AnsiColor::Gray => "gray"@,
    }
}

/// Each ANSI color's name names that color, so different names give
/// different colors.
pub proof fn lemma_color_names(c: AnsiColor)
    ensures
        color_named(ansi_color_name(c)) == Some(c),
{
    reveal_strlit("black");
    reveal_strlit("red");
    reveal_strlit("green");
    reveal_strlit("yellow");
    reveal_strlit("blue");
    reveal_strlit("magenta");
    reveal_strlit("cyan");
    reveal_strlit("white");
    reveal_strlit("darkgray");
    reveal_strlit("dark_gray");
    reveal_strlit("gray");
    match c {
        AnsiColor::Black => {

        },
        AnsiColor::Red => {
            assert("red"@ != "black"@) by { assert("red"@.len() != "black"@.len() || "red"@[0] != "black"@[0]); }
        },
        AnsiColor::Green => {
            assert("green"@ != "black"@) by { assert("green"@.len() != "black"@.len() || "green"@[0] != "black"@[0]); }
            assert("green"@ != "red"@) by { assert("green"@.len() != "red"@.len() || "green"@[0] != "red"@[0]); }
        },
        AnsiColor::Yellow => {
            assert("yellow"@ != "black"@) by { assert("yellow"@.len() != "black"@.len() || "yellow"@[0] != "black"@[0]); }
            assert("yellow"@ != "red"@) by { assert("yellow"@.len() != "red"@.len() || "yellow"@[0] != "red"@[0]); }
            assert("yellow"@ != "green"@) by { assert("yellow"@.len() != "green"@.len() || "yellow"@[0] != "green"@[0]); }
        },
        AnsiColor::Blue => {
            assert("blue"@ != "black"@) by { assert("blue"@.len() != "black"@.len() || "blue"@[0] != "black"@[0]); }
            assert("blue"@ != "red"@) by { assert("blue"@.len() != "red"@.len() || "blue"@[0] != "red"@[0]); }
            assert("blue"@ != "green"@) by { assert("blue"@.len() != "green"@.len() || "blue"@[0] != "green"@[0]); }
            assert("blue"@ != "yellow"@) by { assert("blue"@.len() != "yellow"@.len() || "blue"@[0] != "yellow"@[0]); }
        },
        AnsiColor::Magenta => {
            assert("magenta"@ != "black"@) by { assert("magenta"@.len() != "black"@.len() || "magenta"@[0] != "black"@[0]); }
            assert("magenta"@ != "red"@) by { assert("magenta"@.len() != "red"@.len() || "magenta"@[0] != "red"@[0]); }
            assert("magenta"@ != "green"@) by { assert("magenta"@.len() != "green"@.len() || "magenta"@[0] != "green"@[0]); }
            assert("magenta"@ != "yellow"@) by { assert("magenta"@.len() != "yellow"@.len() || "magenta"@[0] != "yellow"@[0]); }
            assert("magenta"@ != "blue"@) by { assert("magenta"@.len() != "blue"@.len() || "magenta"@[0] != "blue"@[0]); }
        },
        AnsiColor::Cyan => {
            assert("cyan"@ != "black"@) by { assert("cyan"@.len() != "black"@.len() || "cyan"@[0] != "black"@[0]); }
            assert("cyan"@ != "red"@) by { assert("cyan"@.len() != "red"@.len() || "cyan"@[0] != "red"@[0]); }
            assert("cyan"@ != "green"@) by { assert("cyan"@.len() != "green"@.len() || "cyan"@[0] != "green"@[0]); }
            assert("cyan"@ != "yellow"@) by { assert("cyan"@.len() != "yellow"@.len() || "cyan"@[0] != "yellow"@[0]); }
            assert("cyan"@ != "blue"@) by { assert("cyan"@.len() != "blue"@.len() || "cyan"@[0] != "blue"@[0]); }
            assert("cyan"@ != "magenta"@) by { assert("cyan"@.len() != "magenta"@.len() || "cyan"@[0] != "magenta"@[0]); }
        },
        AnsiColor::White => {
            assert("white"@ != "black"@) by { assert("white"@.len() != "black"@.len() || "white"@[0] != "black"@[0]); }
            assert("white"@ != "red"@) by { assert("white"@.len() != "red"@.len() || "white"@[0] != "red"@[0]); }
            assert("white"@ != "green"@) by { assert("white"@.len() != "green"@.len() || "white"@[0] != "green"@[0]); }
            assert("white"@ != "yellow"@) by { assert("white"@.len() != "yellow"@.len() || "white"@[0] != "yellow"@[0]); }
            assert("white"@ != "blue"@) by { assert("white"@.len() != "blue"@.len() || "white"@[0] != "blue"@[0]); }
            assert("white"@ != "magenta"@) by { assert("white"@.len() != "magenta"@.len() || "white"@[0] != "magenta"@[0]); }
            assert("white"@ != "cyan"@) by { assert("white"@.len() != "cyan"@.len() || "white"@[0] != "cyan"@[0]); }
        },
        AnsiColor::DarkGray => {
            assert("darkgray"@ != "black"@) by { assert("darkgray"@.len() != "black"@.len() || "darkgray"@[0] != "black"@[0]); }
            assert("darkgray"@ != "red"@) by { assert("darkgray"@.len() != "red"@.len() || "darkgray"@[0] != "red"@[0]); }
            assert("darkgray"@ != "green"@) by { assert("darkgray"@.len() != "green"@.len() || "darkgray"@[0] != "green"@[0]); }
            assert("darkgray"@ != "yellow"@) by { assert("darkgray"@.len() != "yellow"@.len() || "darkgray"@[0] != "yellow"@[0]); }
            assert("darkgray"@ != "blue"@) by { assert("darkgray"@.len() != "blue"@.len() || "darkgray"@[0] != "blue"@[0]); }
            assert("darkgray"@ != "magenta"@) by { assert("darkgray"@.len() != "magenta"@.len() || "darkgray"@[0] != "magenta"@[0]); }
            assert("darkgray"@ != "cyan"@) by { assert("darkgray"@.len() != "cyan"@.len() || "darkgray"@[0] != "cyan"@[0]); }
            assert("darkgray"@ != "white"@) by { assert("darkgray"@.len() != "white"@.len() || "darkgray"@[0] != "white"@[0]); }
        },
        AnsiColor::Gray => {
            assert("gray"@ != "black"@) by { assert("gray"@.len() != "black"@.len() || "gray"@[0] != "black"@[0]); }
            assert("gray"@ != "red"@) by { assert("gray"@.len() != "red"@.len() || "gray"@[0] != "red"@[0]); }
            assert("gray"@ != "green"@) by { assert("gray"@.len() != "green"@.len() || "gray"@[0] != "green"@[0]); }
            assert("gray"@ != "yellow"@) by { assert("gray"@.len() != "yellow"@.len() || "gray"@[0] != "yellow"@[0]); }
            assert("gray"@ != "blue"@) by { assert("gray"@.len() != "blue"@.len() || "gray"@[0] != "blue"@[0]); }
            assert("gray"@ != "magenta"@) by { assert("gray"@.len() != "magenta"@.len() || "gray"@[0] != "magenta"@[0]); }
            assert("gray"@ != "cyan"@) by { assert("gray"@.len() != "cyan"@.len() || "gray"@[0] != "cyan"@[0]); }
            assert("gray"@ != "white"@) by { assert("gray"@.len() != "white"@.len() || "gray"@[0] != "white"@[0]); }
            assert("gray"@ != "darkgray"@) by { assert("gray"@.len() != "darkgray"@.len() || "gray"@[0] != "darkgray"@[0]); }
            assert("gray"@ != "darkgray"@) by { assert("gray"@.len() != "darkgray"@.len()); }
            assert("gray"@ != "dark_gray"@) by { assert("gray"@.len() != "dark_gray"@.len()); }
        },
    }
}


/// The text that `entries` give last under key `k`, if any.
pub open spec fn last_text(entries: Seq<(Seq<char>, ConfigValueView)>, k: Seq<char>) -> Option<Seq<char>>
    decreases entries.len(),
{
    if entries.len() == 0 {
        None
    } else {
        match entries.last().1 {
            ConfigValueView::Str(s) => if entries.last().0 == k {
                Some(s)
            } else {
                last_text(entries.drop_last(), k)
            },
            _ => last_text(entries.drop_last(), k),
        }
    }
}

proof fn lemma_last_text_front(entries: Seq<(Seq<char>, ConfigValueView)>, k: Seq<char>)
    requires
        entries.len() > 0,
    ensures
        last_text(entries, k) == match last_text(entries.drop_first(), k) {
            Some(x) => Some(x),
            None => match entries[0].1 {
                ConfigValueView::Str(s) => if entries[0].0 == k {
                    Some(s)
                } else {
                    None
                },
                _ => None,
            },
        },
    decreases entries.len(),
{
    let rest = entries.drop_first();
    if entries.len() > 1 {
        let pre = entries.drop_last();
        lemma_last_text_front(pre, k);
        assert(pre.drop_first() =~= rest.drop_last());
        assert(rest.last() == entries.last());
        assert(pre[0] == entries[0]);
        assert(last_text(rest, k) == match rest.last().1 {
            ConfigValueView::Str(s) => if rest.last().0 == k {
                Some(s)
            } else {
                last_text(rest.drop_last(), k)
            },
            _ => last_text(rest.drop_last(), k),
        });
    } else {
        assert(rest.len() == 0);
        assert(last_text(rest, k) is None);
        assert(entries.drop_last().len() == 0);
        assert(last_text(entries.drop_last(), k) is None);
        assert(entries.last() == entries[0]);
    }
}

/// Each theme role's key names that role, and its position gives it back.
pub proof fn lemma_role_keys(r: ThemeRole)
    ensures
        role_of_key(key_of_role(r)) == Some(r),
        0 <= role_index(r) < 15,
        role_at(role_index(r)) == r,
{
    reveal_strlit("background");
    reveal_strlit("foreground");
    reveal_strlit("accent");
    reveal_strlit("link");
    reveal_strlit("link_missing");
    reveal_strlit("cursor_line");
    reveal_strlit("code");
    reveal_strlit("list_selection_foreground");
    reveal_strlit("list_selection_background");
    reveal_strlit("heading1");
    reveal_strlit("heading2");
    reveal_strlit("heading3");
    reveal_strlit("heading4");
    reveal_strlit("heading5");
    reveal_strlit("heading6");

    match r {
        ThemeRole::Background => {

        },
        ThemeRole::Foreground => {
            assert("foreground"@ != "background"@) by { assert("foreground"@[0] != "background"@[0]); }
        },
        ThemeRole::Accent => {
            assert("accent"@ != "background"@) by { assert("accent"@.len() != "background"@.len()); }
            assert("accent"@ != "foreground"@) by { assert("accent"@.len() != "foreground"@.len()); }
        },
        ThemeRole::Link => {
            assert("link"@ != "background"@) by { assert("link"@.len() != "background"@.len()); }
            assert("link"@ != "foreground"@) by { assert("link"@.len() != "foreground"@.len()); }
            assert("link"@ != "accent"@) by { assert("link"@.len() != "accent"@.len()); }
        },
        ThemeRole::LinkMissing => {
            assert("link_missing"@ != "background"@) by { assert("link_missing"@.len() != "background"@.len()); }
            assert("link_missing"@ != "foreground"@) by { assert("link_missing"@.len() != "foreground"@.len()); }
            assert("link_missing"@ != "accent"@) by { assert("link_missing"@.len() != "accent"@.len()); }
            assert("link_missing"@ != "link"@) by { assert("link_missing"@.len() != "link"@.len()); }
        },
        ThemeRole::CursorLine => {
            assert("cursor_line"@ != "background"@) by { assert("cursor_line"@.len() != "background"@.len()); }
            assert("cursor_line"@ != "foreground"@) by { assert("cursor_line"@.len() != "foreground"@.len()); }
            assert("cursor_line"@ != "accent"@) by { assert("cursor_line"@.len() != "accent"@.len()); }
            assert("cursor_line"@ != "link"@) by { assert("cursor_line"@.len() != "link"@.len()); }
            assert("cursor_line"@ != "link_missing"@) by { assert("cursor_line"@.len() != "link_missing"@.len()); }
        },
        ThemeRole::Code => {
            assert("code"@ != "background"@) by { assert("code"@.len() != "background"@.len()); }
            assert("code"@ != "foreground"@) by { assert("code"@.len() != "foreground"@.len()); }
            assert("code"@ != "accent"@) by { assert("code"@.len() != "accent"@.len()); }
            assert("code"@ != "link"@) by { assert("code"@[0] != "link"@[0]); }
            assert("code"@ != "link_missing"@) by { assert("code"@.len() != "link_missing"@.len()); }
            assert("code"@ != "cursor_line"@) by { assert("code"@.len() != "cursor_line"@.len()); }
        },
        ThemeRole::ListSelectionForeground => {
            assert("list_selection_foreground"@ != "background"@) by { assert("list_selection_foreground"@.len() != "background"@.len()); }
            assert("list_selection_foreground"@ != "foreground"@) by { assert("list_selection_foreground"@.len() != "foreground"@.len()); }
            assert("list_selection_foreground"@ != "accent"@) by { assert("list_selection_foreground"@.len() != "accent"@.len()); }
            assert("list_selection_foreground"@ != "link"@) by { assert("list_selection_foreground"@.len() != "link"@.len()); }
            assert("list_selection_foreground"@ != "link_missing"@) by { assert("list_selection_foreground"@.len() != "link_missing"@.len()); }
            assert("list_selection_foreground"@ != "cursor_line"@) by { assert("list_selection_foreground"@.len() != "cursor_line"@.len()); }
            assert("list_selection_foreground"@ != "code"@) by { assert("list_selection_foreground"@.len() != "code"@.len()); }
        },
        ThemeRole::ListSelectionBackground => {
            assert("list_selection_background"@ != "background"@) by { assert("list_selection_background"@.len() != "background"@.len()); }
            assert("list_selection_background"@ != "foreground"@) by { assert("list_selection_background"@.len() != "foreground"@.len()); }
            assert("list_selection_background"@ != "accent"@) by { assert("list_selection_background"@.len() != "accent"@.len()); }
            assert("list_selection_background"@ != "link"@) by { assert("list_selection_background"@.len() != "link"@.len()); }
            assert("list_selection_background"@ != "link_missing"@) by { assert("list_selection_background"@.len() != "link_missing"@.len()); }
            assert("list_selection_background"@ != "cursor_line"@) by { assert("list_selection_background"@.len() != "cursor_line"@.len()); }
            assert("list_selection_background"@ != "code"@) by { assert("list_selection_background"@.len() != "code"@.len()); }
            assert("list_selection_background"@ != "list_selection_foreground"@) by { assert("list_selection_background"@[15] != "list_selection_foreground"@[15]); }
        },
        ThemeRole::Heading1 => {
            assert("heading1"@ != "background"@) by { assert("heading1"@.len() != "background"@.len()); }
            assert("heading1"@ != "foreground"@) by { assert("heading1"@.len() != "foreground"@.len()); }
            assert("heading1"@ != "accent"@) by { assert("heading1"@.len() != "accent"@.len()); }
            assert("heading1"@ != "link"@) by { assert("heading1"@.len() != "link"@.len()); }
            assert("heading1"@ != "link_missing"@) by { assert("heading1"@.len() != "link_missing"@.len()); }
            assert("heading1"@ != "cursor_line"@) by { assert("heading1"@.len() != "cursor_line"@.len()); }
            assert("heading1"@ != "code"@) by { assert("heading1"@.len() != "code"@.len()); }
            assert("heading1"@ != "list_selection_foreground"@) by { assert("heading1"@.len() != "list_selection_foreground"@.len()); }
            assert("heading1"@ != "list_selection_background"@) by { assert("heading1"@.len() != "list_selection_background"@.len()); }
        },
        ThemeRole::Heading2 => {
            assert("heading2"@ != "background"@) by { assert("heading2"@.len() != "background"@.len()); }
            assert("heading2"@ != "foreground"@) by { assert("heading2"@.len() != "foreground"@.len()); }
            assert("heading2"@ != "accent"@) by { assert("heading2"@.len() != "accent"@.len()); }
            assert("heading2"@ != "link"@) by { assert("heading2"@.len() != "link"@.len()); }
            assert("heading2"@ != "link_missing"@) by { assert("heading2"@.len() != "link_missing"@.len()); }
            assert("heading2"@ != "cursor_line"@) by { assert("heading2"@.len() != "cursor_line"@.len()); }
            assert("heading2"@ != "code"@) by { assert("heading2"@.len() != "code"@.len()); }
            assert("heading2"@ != "list_selection_foreground"@) by { assert("heading2"@.len() != "list_selection_foreground"@.len()); }
            assert("heading2"@ != "list_selection_background"@) by { assert("heading2"@.len() != "list_selection_background"@.len()); }
            assert("heading2"@ != "heading1"@) by { assert("heading2"@[7] != "heading1"@[7]); }
        },
        ThemeRole::Heading3 => {
            assert("heading3"@ != "background"@) by { assert("heading3"@.len() != "background"@.len()); }
            assert("heading3"@ != "foreground"@) by { assert("heading3"@.len() != "foreground"@.len()); }
            assert("heading3"@ != "accent"@) by { assert("heading3"@.len() != "accent"@.len()); }
            assert("heading3"@ != "link"@) by { assert("heading3"@.len() != "link"@.len()); }
            assert("heading3"@ != "link_missing"@) by { assert("heading3"@.len() != "link_missing"@.len()); }
            assert("heading3"@ != "cursor_line"@) by { assert("heading3"@.len() != "cursor_line"@.len()); }
            assert("heading3"@ != "code"@) by { assert("heading3"@.len() != "code"@.len()); }
            assert("heading3"@ != "list_selection_foreground"@) by { assert("heading3"@.len() != "list_selection_foreground"@.len()); }
            assert("heading3"@ != "list_selection_background"@) by { assert("heading3"@.len() != "list_selection_background"@.len()); }
            assert("heading3"@ != "heading1"@) by { assert("heading3"@[7] != "heading1"@[7]); }
            assert("heading3"@ != "heading2"@) by { assert("heading3"@[7] != "heading2"@[7]); }
        },
        ThemeRole::Heading4 => {
            assert("heading4"@ != "background"@) by { assert("heading4"@.len() != "background"@.len()); }
            assert("heading4"@ != "foreground"@) by { assert("heading4"@.len() != "foreground"@.len()); }
            assert("heading4"@ != "accent"@) by { assert("heading4"@.len() != "accent"@.len()); }
            assert("heading4"@ != "link"@) by { assert("heading4"@.len() != "link"@.len()); }
            assert("heading4"@ != "link_missing"@) by { assert("heading4"@.len() != "link_missing"@.len()); }
            assert("heading4"@ != "cursor_line"@) by { assert("heading4"@.len() != "cursor_line"@.len()); }
            assert("heading4"@ != "code"@) by { assert("heading4"@.len() != "code"@.len()); }
            assert("heading4"@ != "list_selection_foreground"@) by { assert("heading4"@.len() != "list_selection_foreground"@.len()); }
            assert("heading4"@ != "list_selection_background"@) by { assert("heading4"@.len() != "list_selection_background"@.len()); }
            assert("heading4"@ != "heading1"@) by { assert("heading4"@[7] != "heading1"@[7]); }
            assert("heading4"@ != "heading2"@) by { assert("heading4"@[7] != "heading2"@[7]); }
            assert("heading4"@ != "heading3"@) by { assert("heading4"@[7] != "heading3"@[7]); }
        },
        ThemeRole::Heading5 => {
            assert("heading5"@ != "background"@) by { assert("heading5"@.len() != "background"@.len()); }
            assert("heading5"@ != "foreground"@) by { assert("heading5"@.len() != "foreground"@.len()); }
            assert("heading5"@ != "accent"@) by { assert("heading5"@.len() != "accent"@.len()); }
            assert("heading5"@ != "link"@) by { assert("heading5"@.len() != "link"@.len()); }
            assert("heading5"@ != "link_missing"@) by { assert("heading5"@.len() != "link_missing"@.len()); }
            assert("heading5"@ != "cursor_line"@) by { assert("heading5"@.len() != "cursor_line"@.len()); }
            assert("heading5"@ != "code"@) by { assert("heading5"@.len() != "code"@.len()); }
            assert("heading5"@ != "list_selection_foreground"@) by { assert("heading5"@.len() != "list_selection_foreground"@.len()); }
            assert("heading5"@ != "list_selection_background"@) by { assert("heading5"@.len() != "list_selection_background"@.len()); }
            assert("heading5"@ != "heading1"@) by { assert("heading5"@[7] != "heading1"@[7]); }
            assert("heading5"@ != "heading2"@) by { assert("heading5"@[7] != "heading2"@[7]); }
            assert("heading5"@ != "heading3"@) by { assert("heading5"@[7] != "heading3"@[7]); }
            assert("heading5"@ != "heading4"@) by { assert("heading5"@[7] != "heading4"@[7]); }
        },
        ThemeRole::Heading6 => {
            assert("heading6"@ != "background"@) by { assert("heading6"@.len() != "background"@.len()); }
            assert("heading6"@ != "foreground"@) by { assert("heading6"@.len() != "foreground"@.len()); }
            assert("heading6"@ != "accent"@) by { assert("heading6"@.len() != "accent"@.len()); }
            assert("heading6"@ != "link"@) by { assert("heading6"@.len() != "link"@.len()); }
            assert("heading6"@ != "link_missing"@) by { assert("heading6"@.len() != "link_missing"@.len()); }
            assert("heading6"@ != "cursor_line"@) by { assert("heading6"@.len() != "cursor_line"@.len()); }
            assert("heading6"@ != "code"@) by { assert("heading6"@.len() != "code"@.len()); }
            assert("heading6"@ != "list_selection_foreground"@) by { assert("heading6"@.len() != "list_selection_foreground"@.len()); }
            assert("heading6"@ != "list_selection_background"@) by { assert("heading6"@.len() != "list_selection_background"@.len()); }
            assert("heading6"@ != "heading1"@) by { assert("heading6"@[7] != "heading1"@[7]); }
            assert("heading6"@ != "heading2"@) by { assert("heading6"@[7] != "heading2"@[7]); }
            assert("heading6"@ != "heading3"@) by { assert("heading6"@[7] != "heading3"@[7]); }
            assert("heading6"@ != "heading4"@) by { assert("heading6"@[7] != "heading4"@[7]); }
            assert("heading6"@ != "heading5"@) by { assert("heading6"@[7] != "heading5"@[7]); }
        },
    }
}

/// Each position of the theme's model holds the role placed there.
pub proof fn lemma_role_positions(i: int)
    requires
        0 <= i < 15,
    ensures
        role_index(role_at(i)) == i,
{
}

/// A valid `[theme]` entry: a role's key and a text.
pub open spec fn theme_entry_ok(e: (Seq<char>, ConfigValueView)) -> bool {
    role_of_key(e.0) is Some && e.1 is Str
}

/// A `[theme]` table sets each role to the text it gives last under that
/// role's key and leaves the other roles as they were; a table of role
/// keys with texts always loads.
pub proof fn lemma_theme_settings(t: Seq<Seq<char>>, entries: Seq<(Seq<char>, ConfigValueView)>)
    requires
        t.len() == 15,
    ensures
        (forall|i: int| 0 <= i < entries.len() ==> #[trigger] theme_entry_ok(entries[i]))
            ==> merge_theme_spec(t, entries).1 is None,
        merge_theme_spec(t, entries).1 is None ==> {
            let r = merge_theme_spec(t, entries).0;
            &&& r.len() == 15
            &&& forall|i: int| 0 <= i < 15 ==> #[trigger] r[i] == match last_text(entries, key_of_role(role_at(i))) {
                Some(s) => s,
                None => t[i],
            }
        },
    decreases entries.len(),
{
    if entries.len() > 0 {
        let k = entries[0].0;
        let rest = entries.drop_first();
        if forall|i: int| 0 <= i < entries.len() ==> #[trigger] theme_entry_ok(entries[i]) {
            assert(theme_entry_ok(entries[0]));
            assert forall|i: int| 0 <= i < rest.len() implies #[trigger] theme_entry_ok(rest[i]) by {
                assert(rest[i] == entries[i + 1]);
                assert(theme_entry_ok(entries[i + 1]));
            }
        }
        if let ConfigValueView::Str(s) = entries[0].1 {
            if let Some(ro) = role_of_key(k) {
                lemma_role_keys(ro);
                assert(k == key_of_role(ro));
                let t2 = t.update(role_index(ro), s);
                lemma_theme_settings(t2, rest);
                if merge_theme_spec(t, entries).1 is None {
                    let r = merge_theme_spec(t, entries).0;
                    assert forall|i: int| 0 <= i < 15 implies #[trigger] r[i] == match last_text(
                        entries,
                        key_of_role(role_at(i)),
                    ) {
                        Some(x) => x,
                        None => t[i],
                    } by {
                        lemma_last_text_front(entries, key_of_role(role_at(i)));
                        lemma_role_keys(role_at(i));
                        lemma_role_positions(i);
                        if k == key_of_role(role_at(i)) {
                            assert(role_at(i) == ro);
                        } else {
                            assert(i != role_index(ro));
                        }
                    }
                }
            }
        }
    }
}

/// The word for each cursor style.
pub open spec fn cursor_style_word(s: CursorStyleConfig) -> Seq<char> {
    match s {
        CursorStyleConfig::Block => "block"@,
        CursorStyleConfig::Line => "line"@,
        CursorStyleConfig::Underline => "underline"@,
    }
}

/// Each cursor style's word names that style.
pub proof fn lemma_cursor_style_words(s: CursorStyleConfig)
    ensures
        cursor_style_of(cursor_style_word(s)) == Some(s),
{
    reveal_strlit("block");
    reveal_strlit("line");
    reveal_strlit("underline");
    assert(plain_word(cursor_style_word(s)));
    lemma_plain_word_reads(cursor_style_word(s));
    assert("line"@.len() != "block"@.len());
    assert("underline"@.len() != "block"@.len());
    assert("underline"@.len() != "line"@.len());
}

/// A valid `[cursor]` entry: a style's name, or whether it blinks.
pub open spec fn cursor_entry_ok(e: (Seq<char>, ConfigValueView)) -> bool {
    ||| e.0 == "style"@ && (e.1 matches ConfigValueView::Str(raw) && cursor_style_of(raw) is Some)
    ||| sets_bool(e, "blink"@)
}

/// A `[cursor]` table sets the style named last under `style` and the
/// blinking given last under `blink`, keeping what it does not name; a
/// table of valid entries always loads.
pub proof fn lemma_cursor_settings(c: CursorConfig, entries: Seq<(Seq<char>, ConfigValueView)>)
    ensures
        (forall|i: int| 0 <= i < entries.len() ==> #[trigger] cursor_entry_ok(entries[i]))
            ==> merge_cursor_spec(c, entries).1 is None,
        merge_cursor_spec(c, entries).1 is None ==> {
            let r = merge_cursor_spec(c, entries).0;
            &&& r.style == match last_text(entries, "style"@) {
                Some(raw) => cursor_style_of(raw)->0,
                None => c.style,
            }
            &&& r.blink == bool_given(entries, "blink"@, c.blink)
        },
    decreases entries.len(),
{
    reveal_strlit("style");
    reveal_strlit("blink");
    assert("style"@ != "blink"@) by {
        assert("style"@[0] != "blink"@[0]);
    }
    if entries.len() > 0 {
        let k = entries[0].0;
        let v = entries[0].1;
        let rest = entries.drop_first();
        if forall|i: int| 0 <= i < entries.len() ==> #[trigger] cursor_entry_ok(entries[i]) {
            assert(cursor_entry_ok(entries[0]));
            assert forall|i: int| 0 <= i < rest.len() implies #[trigger] cursor_entry_ok(rest[i]) by {
                assert(rest[i] == entries[i + 1]);
                assert(cursor_entry_ok(entries[i + 1]));
            }
        }
        lemma_last_text_front(entries, "style"@);
        if k == "style"@ {
            if let ConfigValueView::Str(raw) = v {
                if let Some(st) = cursor_style_of(raw) {
                    lemma_cursor_settings(CursorConfig { style: st, ..c }, rest);
                }
            }
        } else if k == "blink"@ {
            if let ConfigValueView::Boolean(b) = v {
                lemma_cursor_settings(CursorConfig { blink: b, ..c }, rest);
            }
        }
    }
}

/// A valid `[ui]` entry: whether status details start shown, or the title
/// art's name.
pub open spec fn ui_entry_ok(e: (Seq<char>, ConfigValueView)) -> bool {
    ||| sets_bool(e, "status_details_default"@)
    ||| e.0 == "start_menu_title"@ && e.1 is Str
}

/// A `[ui]` table sets the status-details default given last and the title
/// named last (trimmed), keeping what it does not name; a table of valid
/// entries always loads.
pub proof fn lemma_ui_settings(ui: UiView, entries: Seq<(Seq<char>, ConfigValueView)>)
    ensures
        (forall|i: int| 0 <= i < entries.len() ==> #[trigger] ui_entry_ok(entries[i]))
            ==> merge_ui_spec(ui, entries).1 is None,
        merge_ui_spec(ui, entries).1 is None ==> {
            let r = merge_ui_spec(ui, entries).0;
            &&& r.status_details_default == bool_given(entries, "status_details_default"@, ui.status_details_default)
            &&& r.start_menu_title == match last_text(entries, "start_menu_title"@) {
                Some(s) => trimmed(s),
                None => ui.start_menu_title,
            }
        },
    decreases entries.len(),
{
    reveal_strlit("status_details_default");
    reveal_strlit("start_menu_title");
    assert("status_details_default"@ != "start_menu_title"@) by {
        assert("status_details_default"@.len() != "start_menu_title"@.len());
    }
    if entries.len() > 0 {
        let k = entries[0].0;
        let v = entries[0].1;
        let rest = entries.drop_first();
        if forall|i: int| 0 <= i < entries.len() ==> #[trigger] ui_entry_ok(entries[i]) {
            assert(ui_entry_ok(entries[0]));
            assert forall|i: int| 0 <= i < rest.len() implies #[trigger] ui_entry_ok(rest[i]) by {
                assert(rest[i] == entries[i + 1]);
                assert(ui_entry_ok(entries[i + 1]));
            }
        }
        lemma_last_text_front(entries, "start_menu_title"@);
        if k == "status_details_default"@ {
            if let ConfigValueView::Boolean(b) = v {
                lemma_ui_settings(UiView { status_details_default: b, ..ui }, rest);
            }
        } else if k == "start_menu_title"@ {
            if let ConfigValueView::Str(s) = v {
                lemma_ui_settings(UiView { start_menu_title: trimmed(s), ..ui }, rest);
            }
        }
    }
}


/// Key `k` is paired with `v` in table `m`.
pub open spec fn holds<V>(m: Seq<(Seq<char>, V)>, k: Seq<char>, v: V) -> bool {
    exists|i: int| 0 <= i < m.len() && #[trigger] m[i] == (k, v)
}

proof fn lemma_chars_lt_irreflexive(a: Seq<char>)
    ensures
        !chars_lt(a, a),
    decreases a.len(),
{
    if a.len() > 0 {
        lemma_chars_lt_irreflexive(a.drop_first());
    }
}

/// In a table whose keys are sorted, a key is paired with one value at most.
pub proof fn lemma_sorted_keys_unique<V>(m: Seq<(Seq<char>, V)>, k: Seq<char>, v: V, w: V)
    requires
        keys_sorted(m),
        holds(m, k, v),
        holds(m, k, w),
    ensures
        v == w,
{
    let i = choose|i: int| 0 <= i < m.len() && #[trigger] m[i] == (k, v);
    let j = choose|j: int| 0 <= j < m.len() && #[trigger] m[j] == (k, w);
    lemma_chars_lt_irreflexive(k);
    if i < j {
        assert(chars_lt(m[i].0, m[j].0));
    } else if j < i {
        assert(chars_lt(m[j].0, m[i].0));
    }
}

/// Setting key `k` to `v` pairs `k` with `v`, and with nothing else when the
/// keys were sorted, and leaves every other key paired as it was.
pub proof fn lemma_sorted_insert_sets<V>(m: Seq<(Seq<char>, V)>, k: Seq<char>, v: V)
    ensures
        holds(sorted_insert(m, k, v), k, v),
        forall|k2: Seq<char>, v2: V| k2 != k ==> (holds(sorted_insert(m, k, v), k2, v2) == holds(m, k2, v2)),
        keys_sorted(m) ==> forall|w: V| holds(sorted_insert(m, k, v), k, w) ==> w == v,
{
    let r = sorted_insert(m, k, v);
    let p = crate::config::not_before(m, k);
    crate::search::lemma_first_index_props(m.len() as int, p);
    match crate::search::first_index(m.len() as int, p) {
        Some(j) => {
            if m[j].0 == k {
                assert(r[j] == (k, v));
                assert forall|k2: Seq<char>, v2: V| k2 != k implies (holds(r, k2, v2) == holds(m, k2, v2)) by {
                    if holds(r, k2, v2) {
                        let i = choose|i: int| 0 <= i < r.len() && #[trigger] r[i] == (k2, v2);
                        assert(m[i] == r[i]);
                    }
                    if holds(m, k2, v2) {
                        let i = choose|i: int| 0 <= i < m.len() && #[trigger] m[i] == (k2, v2);
                        assert(r[i] == m[i]);
                    }
                }
            } else {
                assert(r[j] == (k, v));
                assert forall|k2: Seq<char>, v2: V| k2 != k implies (holds(r, k2, v2) == holds(m, k2, v2)) by {
                    if holds(r, k2, v2) {
                        let i = choose|i: int| 0 <= i < r.len() && #[trigger] r[i] == (k2, v2);
                        if i < j {
                            assert(m[i] == r[i]);
                        } else {
                            assert(i != j);
                            assert(m[i - 1] == r[i]);
                        }
                    }
                    if holds(m, k2, v2) {
                        let i = choose|i: int| 0 <= i < m.len() && #[trigger] m[i] == (k2, v2);
                        if i < j {
                            assert(r[i] == m[i]);
                        } else {
                            assert(r[i + 1] == m[i]);
                        }
                    }
                }
            }
        },
        None => {
            assert(r[m.len() as int] == (k, v));
            assert forall|k2: Seq<char>, v2: V| k2 != k implies (holds(r, k2, v2) == holds(m, k2, v2)) by {
                if holds(r, k2, v2) {
                    let i = choose|i: int| 0 <= i < r.len() && #[trigger] r[i] == (k2, v2);
                    assert(i < m.len());
                    assert(m[i] == r[i]);
                }
                if holds(m, k2, v2) {
                    let i = choose|i: int| 0 <= i < m.len() && #[trigger] m[i] == (k2, v2);
                    assert(r[i] == m[i]);
                }
            }
        },
    }
    if keys_sorted(m) {
        lemma_sorted_insert_keeps_order(m, k, v);
        assert forall|w: V| holds(r, k, w) implies w == v by {
            lemma_sorted_keys_unique(r, k, v, w);
        }
    }
}

/// The binding that `entries` give last to action `a` (the entry's name in
/// lower case), trimmed and in lower case.
pub open spec fn binding_given(entries: Seq<(Seq<char>, ConfigValueView)>, a: Seq<char>) -> Option<Seq<char>>
    decreases entries.len(),
{
    if entries.len() == 0 {
        None
    } else {
        match entries.last().1 {
            ConfigValueView::Str(s) => if ascii_lowered(entries.last().0) == a {
                Some(ascii_lowered(trimmed(s)))
            } else {
                binding_given(entries.drop_last(), a)
            },
            _ => binding_given(entries.drop_last(), a),
        }
    }
}

proof fn lemma_binding_given_front(entries: Seq<(Seq<char>, ConfigValueView)>, a: Seq<char>)
    requires
        entries.len() > 0,
    ensures
        binding_given(entries, a) == match binding_given(entries.drop_first(), a) {
            Some(x) => Some(x),
            None => match entries[0].1 {
                ConfigValueView::Str(s) => if ascii_lowered(entries[0].0) == a {
                    Some(ascii_lowered(trimmed(s)))
                } else {
                    None
                },
                _ => None,
            },
        },
    decreases entries.len(),
{
    let rest = entries.drop_first();
    if entries.len() > 1 {
        let pre = entries.drop_last();
        lemma_binding_given_front(pre, a);
        assert(pre.drop_first() =~= rest.drop_last());
        assert(rest.last() == entries.last());
        assert(pre[0] == entries[0]);
        assert(binding_given(rest, a) == match rest.last().1 {
            ConfigValueView::Str(s) => if ascii_lowered(rest.last().0) == a {
                Some(ascii_lowered(trimmed(s)))
            } else {
                binding_given(rest.drop_last(), a)
            },
            _ => binding_given(rest.drop_last(), a),
        });
    } else {
        assert(rest.len() == 0);
        assert(binding_given(rest, a) is None);
        assert(entries.drop_last().len() == 0);
        assert(binding_given(entries.drop_last(), a) is None);
        assert(entries.last() == entries[0]);
    }
}

/// A valid `[keymap]` entry: a binding text that is not blank.
pub open spec fn keymap_entry_ok(e: (Seq<char>, ConfigValueView)) -> bool {
    e.1 matches ConfigValueView::Str(s) && trimmed(s).len() > 0
}

/// A `[keymap]` table binds each action it names (in any case) to the
/// binding it gives that action last, trimmed and in lower case, and keeps
/// the other actions' bindings; a table of non-blank bindings always loads.
pub proof fn lemma_keymap_settings(m: Seq<(Seq<char>, Seq<char>)>, entries: Seq<(Seq<char>, ConfigValueView)>)
    requires
        keys_sorted(m),
    ensures
        (forall|i: int| 0 <= i < entries.len() ==> #[trigger] keymap_entry_ok(entries[i]))
            ==> merge_keymap_spec(m, entries).1 is None,
        merge_keymap_spec(m, entries).1 is None ==> forall|a: Seq<char>, b: Seq<char>|
            #[trigger] holds(merge_keymap_spec(m, entries).0, a, b) == match binding_given(entries, a) {
                Some(x) => b == x,
                None => holds(m, a, b),
            },
    decreases entries.len(),
{
    if entries.len() > 0 {
        let rest = entries.drop_first();
        if forall|i: int| 0 <= i < entries.len() ==> #[trigger] keymap_entry_ok(entries[i]) {
            assert(keymap_entry_ok(entries[0]));
            assert forall|i: int| 0 <= i < rest.len() implies #[trigger] keymap_entry_ok(rest[i]) by {
                assert(rest[i] == entries[i + 1]);
                assert(keymap_entry_ok(entries[i + 1]));
            }
        }
        if let ConfigValueView::Str(s) = entries[0].1 {
            let b0 = ascii_lowered(trimmed(s));
            if trimmed(s).len() > 0 {
                assert(b0.len() == trimmed(s).len());
            }
            if b0.len() > 0 {
                let lk = ascii_lowered(entries[0].0);
                let m2 = sorted_insert(m, lk, b0);
                lemma_sorted_insert_keeps_order(m, lk, b0);
                lemma_sorted_insert_sets(m, lk, b0);
                lemma_keymap_settings(m2, rest);
                if merge_keymap_spec(m, entries).1 is None {
                    let r = merge_keymap_spec(m, entries).0;
                    assert(r == merge_keymap_spec(m2, rest).0);
                    assert forall|a: Seq<char>, b: Seq<char>| #[trigger] holds(r, a, b) == match binding_given(
                        entries,
                        a,
                    ) {
                        Some(x) => b == x,
                        None => holds(m, a, b),
                    } by {
                        lemma_binding_given_front(entries, a);
                        if a == lk {
                            if holds(m2, a, b) {
                                assert(b == b0);
                            }
                        }
                    }
                }
            }
        }
    }
}

} // verus!
