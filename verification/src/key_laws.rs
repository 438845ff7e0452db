//! What a key binding's words mean: each key's name gives that key, alone
//! or after a modifier.

use vstd::prelude::*;

use crate::commands::{action_named, bound_to, runtime_remaps, AppCommand, RemapAction, key_binding_of, pieces, read_tokens, token_meaning, KeyBinding, KeyName, TokenMeaning};
use crate::search::{first_index, last_index, lemma_first_index_props};
use crate::strings::{ascii_lowered, not_ws_at, trimmed};

verus! {

/// The word that names key `k` in a binding, for the keys named by a word.
pub open spec fn key_token(k: KeyName) -> Option<Seq<char>> {
    match k {
        KeyName::Esc => Some("esc"@),
        KeyName::Enter => Some("enter"@),
        KeyName::Backspace => Some("backspace"@),
        KeyName::Tab => Some("tab"@),
        KeyName::BackTab => Some("backtab"@),
        KeyName::Up => Some("up"@),
        KeyName::Down => Some("down"@),
        KeyName::Left => Some("left"@),
        KeyName::Right => Some("right"@),
        KeyName::Home => Some("home"@),
        KeyName::End => Some("end"@),
        KeyName::PageUp => Some("pageup"@),
        KeyName::PageDown => Some("pagedown"@),
        KeyName::F(n) => if n == 1 {
            Some("f1"@)
        } else if n == 2 {
            Some("f2"@)
        } else {
            None
        },
        KeyName::Char(c) => if c == ' ' {
            Some("space"@)
        } else {
            None
        },
    }
}

/// Each key's name, read as one token of a binding, means that key, so
/// different names mean different keys.
pub proof fn lemma_key_tokens(k: KeyName)
    ensures
        key_token(k) matches Some(t) ==> token_meaning(t) == TokenMeaning::Code(k),
{
    reveal_strlit("alt");
    reveal_strlit("backspace");
    reveal_strlit("backtab");
    reveal_strlit("control");
    reveal_strlit("ctrl");
    reveal_strlit("down");
    reveal_strlit("end");
    reveal_strlit("enter");
    reveal_strlit("esc");
    reveal_strlit("escape");
    reveal_strlit("f1");
    reveal_strlit("f2");
    reveal_strlit("home");
    reveal_strlit("left");
    reveal_strlit("pagedown");
    reveal_strlit("pageup");
    reveal_strlit("pgdown");
    reveal_strlit("pgup");
    reveal_strlit("return");
    reveal_strlit("right");
    reveal_strlit("shift");
    reveal_strlit("space");
    reveal_strlit("tab");
    reveal_strlit("up");

    match k {
        KeyName::Esc => {
            assert("esc"@ != "ctrl"@) by { assert("esc"@.len() != "ctrl"@.len()); }
            assert("esc"@ != "control"@) by { assert("esc"@.len() != "control"@.len()); }
            assert("esc"@ != "shift"@) by { assert("esc"@.len() != "shift"@.len()); }
            assert("esc"@ != "alt"@) by { assert("esc"@[0] != "alt"@[0]); }
        },
        KeyName::Enter => {
            assert("enter"@ != "ctrl"@) by { assert("enter"@.len() != "ctrl"@.len()); }
            assert("enter"@ != "control"@) by { assert("enter"@.len() != "control"@.len()); }
            assert("enter"@ != "shift"@) by { assert("enter"@[0] != "shift"@[0]); }
            assert("enter"@ != "alt"@) by { assert("enter"@.len() != "alt"@.len()); }
            assert("enter"@ != "esc"@) by { assert("enter"@.len() != "esc"@.len()); }
            assert("enter"@ != "escape"@) by { assert("enter"@.len() != "escape"@.len()); }
        },
        KeyName::Backspace => {
            assert("backspace"@ != "ctrl"@) by { assert("backspace"@.len() != "ctrl"@.len()); }
            assert("backspace"@ != "control"@) by { assert("backspace"@.len() != "control"@.len()); }
            assert("backspace"@ != "shift"@) by { assert("backspace"@.len() != "shift"@.len()); }
            assert("backspace"@ != "alt"@) by { assert("backspace"@.len() != "alt"@.len()); }
            assert("backspace"@ != "esc"@) by { assert("backspace"@.len() != "esc"@.len()); }
            assert("backspace"@ != "escape"@) by { assert("backspace"@.len() != "escape"@.len()); }
            assert("backspace"@ != "enter"@) by { assert("backspace"@.len() != "enter"@.len()); }
            assert("backspace"@ != "return"@) by { assert("backspace"@.len() != "return"@.len()); }
        },
        KeyName::Tab => {
            assert("tab"@ != "ctrl"@) by { assert("tab"@.len() != "ctrl"@.len()); }
            assert("tab"@ != "control"@) by { assert("tab"@.len() != "control"@.len()); }
            assert("tab"@ != "shift"@) by { assert("tab"@.len() != "shift"@.len()); }
            assert("tab"@ != "alt"@) by { assert("tab"@[0] != "alt"@[0]); }
            assert("tab"@ != "esc"@) by { assert("tab"@[0] != "esc"@[0]); }
            assert("tab"@ != "escape"@) by { assert("tab"@.len() != "escape"@.len()); }
            assert("tab"@ != "enter"@) by { assert("tab"@.len() != "enter"@.len()); }
            assert("tab"@ != "return"@) by { assert("tab"@.len() != "return"@.len()); }
            assert("tab"@ != "backspace"@) by { assert("tab"@.len() != "backspace"@.len()); }
            assert("tab"@ != "space"@) by { assert("tab"@.len() != "space"@.len()); }
        },
        KeyName::BackTab => {
            assert("backtab"@ != "ctrl"@) by { assert("backtab"@.len() != "ctrl"@.len()); }
            assert("backtab"@ != "control"@) by { assert("backtab"@[0] != "control"@[0]); }
            assert("backtab"@ != "shift"@) by { assert("backtab"@.len() != "shift"@.len()); }
            assert("backtab"@ != "alt"@) by { assert("backtab"@.len() != "alt"@.len()); }
            assert("backtab"@ != "esc"@) by { assert("backtab"@.len() != "esc"@.len()); }
            assert("backtab"@ != "escape"@) by { assert("backtab"@.len() != "escape"@.len()); }
            assert("backtab"@ != "enter"@) by { assert("backtab"@.len() != "enter"@.len()); }
            assert("backtab"@ != "return"@) by { assert("backtab"@.len() != "return"@.len()); }
            assert("backtab"@ != "backspace"@) by { assert("backtab"@.len() != "backspace"@.len()); }
            assert("backtab"@ != "space"@) by { assert("backtab"@.len() != "space"@.len()); }
            assert("backtab"@ != "tab"@) by { assert("backtab"@.len() != "tab"@.len()); }
        },
        KeyName::Up => {
            assert("up"@ != "ctrl"@) by { assert("up"@.len() != "ctrl"@.len()); }
            assert("up"@ != "control"@) by { assert("up"@.len() != "control"@.len()); }
            assert("up"@ != "shift"@) by { assert("up"@.len() != "shift"@.len()); }
            assert("up"@ != "alt"@) by { assert("up"@.len() != "alt"@.len()); }
            assert("up"@ != "esc"@) by { assert("up"@.len() != "esc"@.len()); }
            assert("up"@ != "escape"@) by { assert("up"@.len() != "escape"@.len()); }
            assert("up"@ != "enter"@) by { assert("up"@.len() != "enter"@.len()); }
            assert("up"@ != "return"@) by { assert("up"@.len() != "return"@.len()); }
            assert("up"@ != "backspace"@) by { assert("up"@.len() != "backspace"@.len()); }
            assert("up"@ != "space"@) by { assert("up"@.len() != "space"@.len()); }
            assert("up"@ != "tab"@) by { assert("up"@.len() != "tab"@.len()); }
            assert("up"@ != "backtab"@) by { assert("up"@.len() != "backtab"@.len()); }
        },
        KeyName::Down => {
            assert("down"@ != "ctrl"@) by { assert("down"@[0] != "ctrl"@[0]); }
            assert("down"@ != "control"@) by { assert("down"@.len() != "control"@.len()); }
            assert("down"@ != "shift"@) by { assert("down"@.len() != "shift"@.len()); }
            assert("down"@ != "alt"@) by { assert("down"@.len() != "alt"@.len()); }
            assert("down"@ != "esc"@) by { assert("down"@.len() != "esc"@.len()); }
            assert("down"@ != "escape"@) by { assert("down"@.len() != "escape"@.len()); }
            assert("down"@ != "enter"@) by { assert("down"@.len() != "enter"@.len()); }
            assert("down"@ != "return"@) by { assert("down"@.len() != "return"@.len()); }
            assert("down"@ != "backspace"@) by { assert("down"@.len() != "backspace"@.len()); }
            assert("down"@ != "space"@) by { assert("down"@.len() != "space"@.len()); }
            assert("down"@ != "tab"@) by { assert("down"@.len() != "tab"@.len()); }
            assert("down"@ != "backtab"@) by { assert("down"@.len() != "backtab"@.len()); }
            assert("down"@ != "up"@) by { assert("down"@.len() != "up"@.len()); }
        },
        KeyName::Left => {
            assert("left"@ != "ctrl"@) by { assert("left"@[0] != "ctrl"@[0]); }
            assert("left"@ != "control"@) by { assert("left"@.len() != "control"@.len()); }
            assert("left"@ != "shift"@) by { assert("left"@.len() != "shift"@.len()); }
            assert("left"@ != "alt"@) by { assert("left"@.len() != "alt"@.len()); }
            assert("left"@ != "esc"@) by { assert("left"@.len() != "esc"@.len()); }
            assert("left"@ != "escape"@) by { assert("left"@.len() != "escape"@.len()); }
            assert("left"@ != "enter"@) by { assert("left"@.len() != "enter"@.len()); }
            assert("left"@ != "return"@) by { assert("left"@.len() != "return"@.len()); }
            assert("left"@ != "backspace"@) by { assert("left"@.len() != "backspace"@.len()); }
            assert("left"@ != "space"@) by { assert("left"@.len() != "space"@.len()); }
            assert("left"@ != "tab"@) by { assert("left"@.len() != "tab"@.len()); }
            assert("left"@ != "backtab"@) by { assert("left"@.len() != "backtab"@.len()); }
            assert("left"@ != "up"@) by { assert("left"@.len() != "up"@.len()); }
            assert("left"@ != "down"@) by { assert("left"@[0] != "down"@[0]); }
        },
        KeyName::Right => {
            assert("right"@ != "ctrl"@) by { assert("right"@.len() != "ctrl"@.len()); }
            assert("right"@ != "control"@) by { assert("right"@.len() != "control"@.len()); }
            assert("right"@ != "shift"@) by { assert("right"@[0] != "shift"@[0]); }
            assert("right"@ != "alt"@) by { assert("right"@.len() != "alt"@.len()); }
            assert("right"@ != "esc"@) by { assert("right"@.len() != "esc"@.len()); }
            assert("right"@ != "escape"@) by { assert("right"@.len() != "escape"@.len()); }
            assert("right"@ != "enter"@) by { assert("right"@[0] != "enter"@[0]); }
            assert("right"@ != "return"@) by { assert("right"@.len() != "return"@.len()); }
            assert("right"@ != "backspace"@) by { assert("right"@.len() != "backspace"@.len()); }
            assert("right"@ != "space"@) by { assert("right"@[0] != "space"@[0]); }
            assert("right"@ != "tab"@) by { assert("right"@.len() != "tab"@.len()); }
            assert("right"@ != "backtab"@) by { assert("right"@.len() != "backtab"@.len()); }
            assert("right"@ != "up"@) by { assert("right"@.len() != "up"@.len()); }
            assert("right"@ != "down"@) by { assert("right"@.len() != "down"@.len()); }
            assert("right"@ != "left"@) by { assert("right"@.len() != "left"@.len()); }
        },
        KeyName::Home => {
            assert("home"@ != "ctrl"@) by { assert("home"@[0] != "ctrl"@[0]); }
            assert("home"@ != "control"@) by { assert("home"@.len() != "control"@.len()); }
            assert("home"@ != "shift"@) by { assert("home"@.len() != "shift"@.len()); }
            assert("home"@ != "alt"@) by { assert("home"@.len() != "alt"@.len()); }
            assert("home"@ != "esc"@) by { assert("home"@.len() != "esc"@.len()); }
            assert("home"@ != "escape"@) by { assert("home"@.len() != "escape"@.len()); }
            assert("home"@ != "enter"@) by { assert("home"@.len() != "enter"@.len()); }
            assert("home"@ != "return"@) by { assert("home"@.len() != "return"@.len()); }
            assert("home"@ != "backspace"@) by { assert("home"@.len() != "backspace"@.len()); }
            assert("home"@ != "space"@) by { assert("home"@.len() != "space"@.len()); }
            assert("home"@ != "tab"@) by { assert("home"@.len() != "tab"@.len()); }
            assert("home"@ != "backtab"@) by { assert("home"@.len() != "backtab"@.len()); }
            assert("home"@ != "up"@) by { assert("home"@.len() != "up"@.len()); }
            assert("home"@ != "down"@) by { assert("home"@[0] != "down"@[0]); }
            assert("home"@ != "left"@) by { assert("home"@[0] != "left"@[0]); }
            assert("home"@ != "right"@) by { assert("home"@.len() != "right"@.len()); }
        },
        KeyName::End => {
            assert("end"@ != "ctrl"@) by { assert("end"@.len() != "ctrl"@.len()); }
            assert("end"@ != "control"@) by { assert("end"@.len() != "control"@.len()); }
            assert("end"@ != "shift"@) by { assert("end"@.len() != "shift"@.len()); }
            assert("end"@ != "alt"@) by { assert("end"@[0] != "alt"@[0]); }
            assert("end"@ != "esc"@) by { assert("end"@[1] != "esc"@[1]); }
            assert("end"@ != "escape"@) by { assert("end"@.len() != "escape"@.len()); }
            assert("end"@ != "enter"@) by { assert("end"@.len() != "enter"@.len()); }
            assert("end"@ != "return"@) by { assert("end"@.len() != "return"@.len()); }
            assert("end"@ != "backspace"@) by { assert("end"@.len() != "backspace"@.len()); }
            assert("end"@ != "space"@) by { assert("end"@.len() != "space"@.len()); }
            assert("end"@ != "tab"@) by { assert("end"@[0] != "tab"@[0]); }
            assert("end"@ != "backtab"@) by { assert("end"@.len() != "backtab"@.len()); }
            assert("end"@ != "up"@) by { assert("end"@.len() != "up"@.len()); }
            assert("end"@ != "down"@) by { assert("end"@.len() != "down"@.len()); }
            assert("end"@ != "left"@) by { assert("end"@.len() != "left"@.len()); }
            assert("end"@ != "right"@) by { assert("end"@.len() != "right"@.len()); }
            assert("end"@ != "home"@) by { assert("end"@.len() != "home"@.len()); }
        },
        KeyName::PageUp => {
            assert("pageup"@ != "ctrl"@) by { assert("pageup"@.len() != "ctrl"@.len()); }
            assert("pageup"@ != "control"@) by { assert("pageup"@.len() != "control"@.len()); }
            assert("pageup"@ != "shift"@) by { assert("pageup"@.len() != "shift"@.len()); }
            assert("pageup"@ != "alt"@) by { assert("pageup"@.len() != "alt"@.len()); }
            assert("pageup"@ != "esc"@) by { assert("pageup"@.len() != "esc"@.len()); }
            assert("pageup"@ != "escape"@) by { assert("pageup"@[0] != "escape"@[0]); }
            assert("pageup"@ != "enter"@) by { assert("pageup"@.len() != "enter"@.len()); }
            assert("pageup"@ != "return"@) by { assert("pageup"@[0] != "return"@[0]); }
            assert("pageup"@ != "backspace"@) by { assert("pageup"@.len() != "backspace"@.len()); }
            assert("pageup"@ != "space"@) by { assert("pageup"@.len() != "space"@.len()); }
            assert("pageup"@ != "tab"@) by { assert("pageup"@.len() != "tab"@.len()); }
            assert("pageup"@ != "backtab"@) by { assert("pageup"@.len() != "backtab"@.len()); }
            assert("pageup"@ != "up"@) by { assert("pageup"@.len() != "up"@.len()); }
            assert("pageup"@ != "down"@) by { assert("pageup"@.len() != "down"@.len()); }
            assert("pageup"@ != "left"@) by { assert("pageup"@.len() != "left"@.len()); }
            assert("pageup"@ != "right"@) by { assert("pageup"@.len() != "right"@.len()); }
            assert("pageup"@ != "home"@) by { assert("pageup"@.len() != "home"@.len()); }
            assert("pageup"@ != "end"@) by { assert("pageup"@.len() != "end"@.len()); }
        },
        KeyName::PageDown => {
            assert("pagedown"@ != "ctrl"@) by { assert("pagedown"@.len() != "ctrl"@.len()); }
            assert("pagedown"@ != "control"@) by { assert("pagedown"@.len() != "control"@.len()); }
            assert("pagedown"@ != "shift"@) by { assert("pagedown"@.len() != "shift"@.len()); }
            assert("pagedown"@ != "alt"@) by { assert("pagedown"@.len() != "alt"@.len()); }
            assert("pagedown"@ != "esc"@) by { assert("pagedown"@.len() != "esc"@.len()); }
            assert("pagedown"@ != "escape"@) by { assert("pagedown"@.len() != "escape"@.len()); }
            assert("pagedown"@ != "enter"@) by { assert("pagedown"@.len() != "enter"@.len()); }
            assert("pagedown"@ != "return"@) by { assert("pagedown"@.len() != "return"@.len()); }
            assert("pagedown"@ != "backspace"@) by { assert("pagedown"@.len() != "backspace"@.len()); }
            assert("pagedown"@ != "space"@) by { assert("pagedown"@.len() != "space"@.len()); }
            assert("pagedown"@ != "tab"@) by { assert("pagedown"@.len() != "tab"@.len()); }
            assert("pagedown"@ != "backtab"@) by { assert("pagedown"@.len() != "backtab"@.len()); }
            assert("pagedown"@ != "up"@) by { assert("pagedown"@.len() != "up"@.len()); }
            assert("pagedown"@ != "down"@) by { assert("pagedown"@.len() != "down"@.len()); }
            assert("pagedown"@ != "left"@) by { assert("pagedown"@.len() != "left"@.len()); }
            assert("pagedown"@ != "right"@) by { assert("pagedown"@.len() != "right"@.len()); }
            assert("pagedown"@ != "home"@) by { assert("pagedown"@.len() != "home"@.len()); }
            assert("pagedown"@ != "end"@) by { assert("pagedown"@.len() != "end"@.len()); }
            assert("pagedown"@ != "pageup"@) by { assert("pagedown"@.len() != "pageup"@.len()); }
            assert("pagedown"@ != "pgup"@) by { assert("pagedown"@.len() != "pgup"@.len()); }
        },
        KeyName::F(1) => {
            assert("f1"@ != "ctrl"@) by { assert("f1"@.len() != "ctrl"@.len()); }
            assert("f1"@ != "control"@) by { assert("f1"@.len() != "control"@.len()); }
            assert("f1"@ != "shift"@) by { assert("f1"@.len() != "shift"@.len()); }
            assert("f1"@ != "alt"@) by { assert("f1"@.len() != "alt"@.len()); }
            assert("f1"@ != "esc"@) by { assert("f1"@.len() != "esc"@.len()); }
            assert("f1"@ != "escape"@) by { assert("f1"@.len() != "escape"@.len()); }
            assert("f1"@ != "enter"@) by { assert("f1"@.len() != "enter"@.len()); }
            assert("f1"@ != "return"@) by { assert("f1"@.len() != "return"@.len()); }
            assert("f1"@ != "backspace"@) by { assert("f1"@.len() != "backspace"@.len()); }
            assert("f1"@ != "space"@) by { assert("f1"@.len() != "space"@.len()); }
            assert("f1"@ != "tab"@) by { assert("f1"@.len() != "tab"@.len()); }
            assert("f1"@ != "backtab"@) by { assert("f1"@.len() != "backtab"@.len()); }
            assert("f1"@ != "up"@) by { assert("f1"@[0] != "up"@[0]); }
            assert("f1"@ != "down"@) by { assert("f1"@.len() != "down"@.len()); }
            assert("f1"@ != "left"@) by { assert("f1"@.len() != "left"@.len()); }
            assert("f1"@ != "right"@) by { assert("f1"@.len() != "right"@.len()); }
            assert("f1"@ != "home"@) by { assert("f1"@.len() != "home"@.len()); }
            assert("f1"@ != "end"@) by { assert("f1"@.len() != "end"@.len()); }
            assert("f1"@ != "pageup"@) by { assert("f1"@.len() != "pageup"@.len()); }
            assert("f1"@ != "pgup"@) by { assert("f1"@.len() != "pgup"@.len()); }
            assert("f1"@ != "pagedown"@) by { assert("f1"@.len() != "pagedown"@.len()); }
            assert("f1"@ != "pgdown"@) by { assert("f1"@.len() != "pgdown"@.len()); }
        },
        KeyName::F(2) => {
            assert("f2"@ != "ctrl"@) by { assert("f2"@.len() != "ctrl"@.len()); }
            assert("f2"@ != "control"@) by { assert("f2"@.len() != "control"@.len()); }
            assert("f2"@ != "shift"@) by { assert("f2"@.len() != "shift"@.len()); }
            assert("f2"@ != "alt"@) by { assert("f2"@.len() != "alt"@.len()); }
            assert("f2"@ != "esc"@) by { assert("f2"@.len() != "esc"@.len()); }
            assert("f2"@ != "escape"@) by { assert("f2"@.len() != "escape"@.len()); }
            assert("f2"@ != "enter"@) by { assert("f2"@.len() != "enter"@.len()); }
            assert("f2"@ != "return"@) by { assert("f2"@.len() != "return"@.len()); }
            assert("f2"@ != "backspace"@) by { assert("f2"@.len() != "backspace"@.len()); }
            assert("f2"@ != "space"@) by { assert("f2"@.len() != "space"@.len()); }
            assert("f2"@ != "tab"@) by { assert("f2"@.len() != "tab"@.len()); }
            assert("f2"@ != "backtab"@) by { assert("f2"@.len() != "backtab"@.len()); }
            assert("f2"@ != "up"@) by { assert("f2"@[0] != "up"@[0]); }
            assert("f2"@ != "down"@) by { assert("f2"@.len() != "down"@.len()); }
            assert("f2"@ != "left"@) by { assert("f2"@.len() != "left"@.len()); }
            assert("f2"@ != "right"@) by { assert("f2"@.len() != "right"@.len()); }
            assert("f2"@ != "home"@) by { assert("f2"@.len() != "home"@.len()); }
            assert("f2"@ != "end"@) by { assert("f2"@.len() != "end"@.len()); }
            assert("f2"@ != "pageup"@) by { assert("f2"@.len() != "pageup"@.len()); }
            assert("f2"@ != "pgup"@) by { assert("f2"@.len() != "pgup"@.len()); }
            assert("f2"@ != "pagedown"@) by { assert("f2"@.len() != "pagedown"@.len()); }
            assert("f2"@ != "pgdown"@) by { assert("f2"@.len() != "pgdown"@.len()); }
            assert("f2"@ != "f1"@) by { assert("f2"@[1] != "f1"@[1]); }
        },
        KeyName::Char(' ') => {
            assert("space"@ != "ctrl"@) by { assert("space"@.len() != "ctrl"@.len()); }
            assert("space"@ != "control"@) by { assert("space"@.len() != "control"@.len()); }
            assert("space"@ != "shift"@) by { assert("space"@[1] != "shift"@[1]); }
            assert("space"@ != "alt"@) by { assert("space"@.len() != "alt"@.len()); }
            assert("space"@ != "esc"@) by { assert("space"@.len() != "esc"@.len()); }
            assert("space"@ != "escape"@) by { assert("space"@.len() != "escape"@.len()); }
            assert("space"@ != "enter"@) by { assert("space"@[0] != "enter"@[0]); }
            assert("space"@ != "return"@) by { assert("space"@.len() != "return"@.len()); }
            assert("space"@ != "backspace"@) by { assert("space"@.len() != "backspace"@.len()); }
        },
        _ => {},
    }
}

/// A word of small ASCII letters and digits.
pub open spec fn plain_word(t: Seq<char>) -> bool {
    &&& t.len() > 0
    &&& forall|i: int| 0 <= i < t.len() ==> ('a' <= #[trigger] t[i] <= 'z' || '0' <= t[i] <= '9')
}

pub proof fn lemma_plain_word_reads(t: Seq<char>)
    requires
        plain_word(t),
    ensures
        ascii_lowered(trimmed(t)) == t,
        forall|i: int| 0 <= i < t.len() ==> #[trigger] t[i] != '+',
{
    let p = not_ws_at(t);
    assert(p(0));
    lemma_first_index_props(t.len() as int, p);
    assert(first_index(t.len() as int, p) == Some(0int));
    assert(p(t.len() - 1));
    assert(last_index(t.len() as int, p) == Some(t.len() - 1));
    assert(trimmed(t) =~= t);
    assert(ascii_lowered(t) =~= t);
}

proof fn lemma_pieces_plain(t: Seq<char>, sep: char)
    requires
        forall|i: int| 0 <= i < t.len() ==> #[trigger] t[i] != sep,
    ensures
        pieces(t, sep) == seq![t],
    decreases t.len(),
{
    if t.len() > 0 {
        lemma_pieces_plain(t.drop_last(), sep);
        assert(t.last() == t[t.len() - 1]);
        assert(t.drop_last().push(t.last()) =~= t);
        assert(pieces(t, sep) =~= seq![t]);
    } else {
        assert(t =~= Seq::<char>::empty());
    }
}

proof fn lemma_pieces_after(a: Seq<char>, sep: char, b: Seq<char>)
    requires
        forall|i: int| 0 <= i < b.len() ==> #[trigger] b[i] != sep,
    ensures
        pieces(a.push(sep) + b, sep) == pieces(a, sep).push(b),
    decreases b.len(),
{
    let x = a.push(sep) + b;
    if b.len() == 0 {
        assert(x =~= a.push(sep));
        assert(x.drop_last() =~= a);
        assert(pieces(x, sep) =~= pieces(a, sep).push(Seq::empty()));
        assert(b =~= Seq::<char>::empty());
    } else {
        lemma_pieces_after(a, sep, b.drop_last());
        assert(x.drop_last() =~= a.push(sep) + b.drop_last());
        assert(x.last() == b[b.len() - 1]);
        assert(b.drop_last().push(b.last()) =~= b);
        assert(pieces(x, sep) =~= pieces(a, sep).push(b));
    }
}

/// A word naming a modifier.
pub open spec fn modifier_word(m: Seq<char>) -> bool {
    token_meaning(m) is Ctrl || token_meaning(m) is Shift || token_meaning(m) is Alt
}

proof fn lemma_modified_binding(m: Seq<char>, t: Seq<char>, k: KeyName)
    requires
        plain_word(m),
        plain_word(t),
        modifier_word(m),
        token_meaning(t) == TokenMeaning::Code(k),
    ensures
        key_binding_of(m.push('+') + t) == Ok::<KeyBinding, Seq<char>>(
            KeyBinding {
                code: k,
                ctrl: token_meaning(m) is Ctrl,
                shift: token_meaning(m) is Shift,
                alt: token_meaning(m) is Alt,
            },
        ),
{
    lemma_plain_word_reads(t);
    lemma_plain_word_reads(m);
    lemma_pieces_plain(m, '+');
    lemma_pieces_after(m, '+', t);
    let raw = m.push('+') + t;
    let e = Seq::<Seq<char>>::empty();
    let one = seq![t];
    let two = seq![m, t];
    assert(pieces(raw, '+') =~= two);
    assert(one[0] == t && one.drop_first() =~= e);
    assert(two[0] == m && two.drop_first() =~= one);
    let c = token_meaning(m) is Ctrl;
    let s = token_meaning(m) is Shift;
    let a = token_meaning(m) is Alt;
    assert(read_tokens(two, None, false, false, false, raw) == read_tokens(one, None, c, s, a, raw));
    assert(read_tokens(one, None, c, s, a, raw) == read_tokens(e, Some(k), c, s, a, raw));
}

/// The modifier words and the other spellings of keys.
pub proof fn lemma_modifier_and_alias_words()
    ensures
        token_meaning("ctrl"@) == TokenMeaning::Ctrl,
        token_meaning("control"@) == TokenMeaning::Ctrl,
        token_meaning("shift"@) == TokenMeaning::Shift,
        token_meaning("alt"@) == TokenMeaning::Alt,
        token_meaning("escape"@) == TokenMeaning::Code(KeyName::Esc),
        token_meaning("return"@) == TokenMeaning::Code(KeyName::Enter),
        token_meaning("pgup"@) == TokenMeaning::Code(KeyName::PageUp),
        token_meaning("pgdown"@) == TokenMeaning::Code(KeyName::PageDown),
        token_meaning(Seq::empty()) == TokenMeaning::Skip,
{
    reveal_strlit("alt");
    reveal_strlit("backspace");
    reveal_strlit("backtab");
    reveal_strlit("control");
    reveal_strlit("ctrl");
    reveal_strlit("down");
    reveal_strlit("end");
    reveal_strlit("enter");
    reveal_strlit("esc");
    reveal_strlit("escape");
    reveal_strlit("f1");
    reveal_strlit("f2");
    reveal_strlit("home");
    reveal_strlit("left");
    reveal_strlit("pagedown");
    reveal_strlit("pageup");
    reveal_strlit("pgdown");
    reveal_strlit("pgup");
    reveal_strlit("return");
    reveal_strlit("right");
    reveal_strlit("shift");
    reveal_strlit("space");
    reveal_strlit("tab");
    reveal_strlit("up");

    assert("shift"@ != "ctrl"@) by { assert("shift"@.len() != "ctrl"@.len()); }
    assert("shift"@ != "control"@) by { assert("shift"@.len() != "control"@.len()); }
    assert("alt"@ != "ctrl"@) by { assert("alt"@.len() != "ctrl"@.len()); }
    assert("alt"@ != "control"@) by { assert("alt"@.len() != "control"@.len()); }
    assert("alt"@ != "shift"@) by { assert("alt"@.len() != "shift"@.len()); }
    assert("escape"@ != "ctrl"@) by { assert("escape"@.len() != "ctrl"@.len()); }
    assert("escape"@ != "control"@) by { assert("escape"@.len() != "control"@.len()); }
    assert("escape"@ != "shift"@) by { assert("escape"@.len() != "shift"@.len()); }
    assert("escape"@ != "alt"@) by { assert("escape"@.len() != "alt"@.len()); }
    assert("return"@ != "ctrl"@) by { assert("return"@.len() != "ctrl"@.len()); }
    assert("return"@ != "control"@) by { assert("return"@.len() != "control"@.len()); }
    assert("return"@ != "shift"@) by { assert("return"@.len() != "shift"@.len()); }
    assert("return"@ != "alt"@) by { assert("return"@.len() != "alt"@.len()); }
    assert("return"@ != "esc"@) by { assert("return"@.len() != "esc"@.len()); }
    assert("return"@ != "escape"@) by { assert("return"@[0] != "escape"@[0]); }
    assert("pgup"@ != "ctrl"@) by { assert("pgup"@[0] != "ctrl"@[0]); }
    assert("pgup"@ != "control"@) by { assert("pgup"@.len() != "control"@.len()); }
    assert("pgup"@ != "shift"@) by { assert("pgup"@.len() != "shift"@.len()); }
    assert("pgup"@ != "alt"@) by { assert("pgup"@.len() != "alt"@.len()); }
    assert("pgup"@ != "esc"@) by { assert("pgup"@.len() != "esc"@.len()); }
    assert("pgup"@ != "escape"@) by { assert("pgup"@.len() != "escape"@.len()); }
    assert("pgup"@ != "enter"@) by { assert("pgup"@.len() != "enter"@.len()); }
    assert("pgup"@ != "return"@) by { assert("pgup"@.len() != "return"@.len()); }
    assert("pgup"@ != "backspace"@) by { assert("pgup"@.len() != "backspace"@.len()); }
    assert("pgup"@ != "space"@) by { assert("pgup"@.len() != "space"@.len()); }
    assert("pgup"@ != "tab"@) by { assert("pgup"@.len() != "tab"@.len()); }
    assert("pgup"@ != "backtab"@) by { assert("pgup"@.len() != "backtab"@.len()); }
    assert("pgup"@ != "up"@) by { assert("pgup"@.len() != "up"@.len()); }
    assert("pgup"@ != "down"@) by { assert("pgup"@[0] != "down"@[0]); }
    assert("pgup"@ != "left"@) by { assert("pgup"@[0] != "left"@[0]); }
    assert("pgup"@ != "right"@) by { assert("pgup"@.len() != "right"@.len()); }
    assert("pgup"@ != "home"@) by { assert("pgup"@[0] != "home"@[0]); }
    assert("pgup"@ != "end"@) by { assert("pgup"@.len() != "end"@.len()); }
    assert("pgdown"@ != "ctrl"@) by { assert("pgdown"@.len() != "ctrl"@.len()); }
    assert("pgdown"@ != "control"@) by { assert("pgdown"@.len() != "control"@.len()); }
    assert("pgdown"@ != "shift"@) by { assert("pgdown"@.len() != "shift"@.len()); }
    assert("pgdown"@ != "alt"@) by { assert("pgdown"@.len() != "alt"@.len()); }
    assert("pgdown"@ != "esc"@) by { assert("pgdown"@.len() != "esc"@.len()); }
    assert("pgdown"@ != "escape"@) by { assert("pgdown"@[0] != "escape"@[0]); }
    assert("pgdown"@ != "enter"@) by { assert("pgdown"@.len() != "enter"@.len()); }
    assert("pgdown"@ != "return"@) by { assert("pgdown"@[0] != "return"@[0]); }
    assert("pgdown"@ != "backspace"@) by { assert("pgdown"@.len() != "backspace"@.len()); }
    assert("pgdown"@ != "space"@) by { assert("pgdown"@.len() != "space"@.len()); }
    assert("pgdown"@ != "tab"@) by { assert("pgdown"@.len() != "tab"@.len()); }
    assert("pgdown"@ != "backtab"@) by { assert("pgdown"@.len() != "backtab"@.len()); }
    assert("pgdown"@ != "up"@) by { assert("pgdown"@.len() != "up"@.len()); }
    assert("pgdown"@ != "down"@) by { assert("pgdown"@.len() != "down"@.len()); }
    assert("pgdown"@ != "left"@) by { assert("pgdown"@.len() != "left"@.len()); }
    assert("pgdown"@ != "right"@) by { assert("pgdown"@.len() != "right"@.len()); }
    assert("pgdown"@ != "home"@) by { assert("pgdown"@.len() != "home"@.len()); }
    assert("pgdown"@ != "end"@) by { assert("pgdown"@.len() != "end"@.len()); }
    assert("pgdown"@ != "pageup"@) by { assert("pgdown"@[1] != "pageup"@[1]); }
    assert("pgdown"@ != "pgup"@) by { assert("pgdown"@.len() != "pgup"@.len()); }
}

/// Any other single ASCII char, as a token, is the key of that char.
pub proof fn lemma_single_char_token(c: char)
    requires
        (c as u32) < 0x80,
    ensures
        token_meaning(seq![c]) == TokenMeaning::Code(KeyName::Char(c)),
{
    reveal_strlit("alt");
    reveal_strlit("backspace");
    reveal_strlit("backtab");
    reveal_strlit("control");
    reveal_strlit("ctrl");
    reveal_strlit("down");
    reveal_strlit("end");
    reveal_strlit("enter");
    reveal_strlit("esc");
    reveal_strlit("escape");
    reveal_strlit("f1");
    reveal_strlit("f2");
    reveal_strlit("home");
    reveal_strlit("left");
    reveal_strlit("pagedown");
    reveal_strlit("pageup");
    reveal_strlit("pgdown");
    reveal_strlit("pgup");
    reveal_strlit("return");
    reveal_strlit("right");
    reveal_strlit("shift");
    reveal_strlit("space");
    reveal_strlit("tab");
    reveal_strlit("up");

}

/// Each key's name is a binding of that key alone, and after `ctrl+`,
/// `shift+` or `alt+` a binding of that key with that modifier held.
pub proof fn lemma_key_bindings(k: KeyName)
    ensures
        key_token(k) matches Some(t) ==> {
            &&& key_binding_of(t) == Ok::<KeyBinding, Seq<char>>(
                KeyBinding { code: k, ctrl: false, shift: false, alt: false },
            )
            &&& key_binding_of("ctrl+"@ + t) == Ok::<KeyBinding, Seq<char>>(
                KeyBinding { code: k, ctrl: true, shift: false, alt: false },
            )
            &&& key_binding_of("shift+"@ + t) == Ok::<KeyBinding, Seq<char>>(
                KeyBinding { code: k, ctrl: false, shift: true, alt: false },
            )
            &&& key_binding_of("alt+"@ + t) == Ok::<KeyBinding, Seq<char>>(
                KeyBinding { code: k, ctrl: false, shift: false, alt: true },
            )
        },
{
    lemma_key_tokens(k);
    lemma_modifier_and_alias_words();
    if let Some(t) = key_token(k) {
        reveal_strlit("alt");
        reveal_strlit("backspace");
        reveal_strlit("backtab");
        reveal_strlit("control");
        reveal_strlit("ctrl");
        reveal_strlit("down");
        reveal_strlit("end");
        reveal_strlit("enter");
        reveal_strlit("esc");
        reveal_strlit("escape");
        reveal_strlit("f1");
        reveal_strlit("f2");
        reveal_strlit("home");
        reveal_strlit("left");
        reveal_strlit("pagedown");
        reveal_strlit("pageup");
        reveal_strlit("pgdown");
        reveal_strlit("pgup");
        reveal_strlit("return");
        reveal_strlit("right");
        reveal_strlit("shift");
        reveal_strlit("space");
        reveal_strlit("tab");
        reveal_strlit("up");

        reveal_strlit("ctrl+");
        reveal_strlit("shift+");
        reveal_strlit("alt+");
        assert(plain_word(t));
        lemma_plain_word_reads(t);
        lemma_pieces_plain(t, '+');
        let e = Seq::<Seq<char>>::empty();
        let one = seq![t];
        assert(pieces(t, '+') == one);
        assert(one[0] == t && one.drop_first() =~= e);
        assert(read_tokens(one, None, false, false, false, t) == read_tokens(e, Some(k), false, false, false, t));
        assert(plain_word("ctrl"@));
        assert(plain_word("shift"@));
        assert(plain_word("alt"@));
        assert("ctrl+"@ =~= "ctrl"@.push('+'));
        assert("shift+"@ =~= "shift"@.push('+'));
        assert("alt+"@ =~= "alt"@.push('+'));
        lemma_modified_binding("ctrl"@, t, k);
        lemma_modified_binding("shift"@, t, k);
        lemma_modified_binding("alt"@, t, k);
    }
}


/// The name that a `[keymap]` entry gives to action `a`, for the actions a
/// key can be bound to.
pub open spec fn action_name(a: RemapAction) -> Option<Seq<char>> {
    match a {
        RemapAction::Quit => Some("quit"@),
        RemapAction::OpenPalette => Some("open_palette"@),
        RemapAction::OpenMenu => Some("open_menu"@),
        RemapAction::OpenHelp => Some("open_help"@),
        RemapAction::ToggleChromeHidden => Some("toggle_chrome_hidden"@),
        RemapAction::ToggleStatusDetails => Some("toggle_status_details"@),
        RemapAction::Command(AppCommand::NewDocument) => Some("new_document"@),
        RemapAction::Command(AppCommand::RecentDocuments) => Some("recent_documents"@),
        RemapAction::Command(AppCommand::WritingFolder) => Some("writing_folder"@),
        RemapAction::Command(AppCommand::Configuration) => Some("configuration"@),
        RemapAction::Command(AppCommand::Save) => Some("save"@),
        _ => None,
    }
}

/// Each action's name names that action, so different names name
/// different actions.
pub proof fn lemma_action_names(a: RemapAction)
    ensures
        action_name(a) matches Some(n) ==> action_named(n) == Some(a),
{
    reveal_strlit("quit");
    reveal_strlit("open_palette");
    reveal_strlit("open_menu");
    reveal_strlit("open_help");
    reveal_strlit("toggle_chrome_hidden");
    reveal_strlit("toggle_status_details");
    reveal_strlit("new_document");
    reveal_strlit("recent_documents");
    reveal_strlit("writing_folder");
    reveal_strlit("document_browser");
    reveal_strlit("configuration");
    reveal_strlit("save");
    match a {
        RemapAction::Quit => {

        },
        RemapAction::OpenPalette => {
            assert("open_palette"@ != "quit"@) by { assert("open_palette"@.len() != "quit"@.len()); }
        },
        RemapAction::OpenMenu => {
            assert("open_menu"@ != "quit"@) by { assert("open_menu"@.len() != "quit"@.len()); }
            assert("open_menu"@ != "open_palette"@) by { assert("open_menu"@.len() != "open_palette"@.len()); }
        },
        RemapAction::OpenHelp => {
            assert("open_help"@ != "quit"@) by { assert("open_help"@.len() != "quit"@.len()); }
            assert("open_help"@ != "open_palette"@) by { assert("open_help"@.len() != "open_palette"@.len()); }
            assert("open_help"@ != "open_menu"@) by { assert("open_help"@[5] != "open_menu"@[5]); }
        },
        RemapAction::ToggleChromeHidden => {
            assert("toggle_chrome_hidden"@ != "quit"@) by { assert("toggle_chrome_hidden"@.len() != "quit"@.len()); }
            assert("toggle_chrome_hidden"@ != "open_palette"@) by { assert("toggle_chrome_hidden"@.len() != "open_palette"@.len()); }
            assert("toggle_chrome_hidden"@ != "open_menu"@) by { assert("toggle_chrome_hidden"@.len() != "open_menu"@.len()); }
            assert("toggle_chrome_hidden"@ != "open_help"@) by { assert("toggle_chrome_hidden"@.len() != "open_help"@.len()); }
        },
        RemapAction::ToggleStatusDetails => {
            assert("toggle_status_details"@ != "quit"@) by { assert("toggle_status_details"@.len() != "quit"@.len()); }
            assert("toggle_status_details"@ != "open_palette"@) by { assert("toggle_status_details"@.len() != "open_palette"@.len()); }
            assert("toggle_status_details"@ != "open_menu"@) by { assert("toggle_status_details"@.len() != "open_menu"@.len()); }
            assert("toggle_status_details"@ != "open_help"@) by { assert("toggle_status_details"@.len() != "open_help"@.len()); }
            assert("toggle_status_details"@ != "toggle_chrome_hidden"@) by { assert("toggle_status_details"@.len() != "toggle_chrome_hidden"@.len()); }
        },
        RemapAction::Command(AppCommand::NewDocument) => {
            assert("new_document"@ != "quit"@) by { assert("new_document"@.len() != "quit"@.len()); }
            assert("new_document"@ != "open_palette"@) by { assert("new_document"@[0] != "open_palette"@[0]); }
            assert("new_document"@ != "open_menu"@) by { assert("new_document"@.len() != "open_menu"@.len()); }
            assert("new_document"@ != "open_help"@) by { assert("new_document"@.len() != "open_help"@.len()); }
            assert("new_document"@ != "toggle_chrome_hidden"@) by { assert("new_document"@.len() != "toggle_chrome_hidden"@.len()); }
            assert("new_document"@ != "toggle_status_details"@) by { assert("new_document"@.len() != "toggle_status_details"@.len()); }
        },
        RemapAction::Command(AppCommand::RecentDocuments) => {
            assert("recent_documents"@ != "quit"@) by { assert("recent_documents"@.len() != "quit"@.len()); }
            assert("recent_documents"@ != "open_palette"@) by { assert("recent_documents"@.len() != "open_palette"@.len()); }
            assert("recent_documents"@ != "open_menu"@) by { assert("recent_documents"@.len() != "open_menu"@.len()); }
            assert("recent_documents"@ != "open_help"@) by { assert("recent_documents"@.len() != "open_help"@.len()); }
            assert("recent_documents"@ != "toggle_chrome_hidden"@) by { assert("recent_documents"@.len() != "toggle_chrome_hidden"@.len()); }
            assert("recent_documents"@ != "toggle_status_details"@) by { assert("recent_documents"@.len() != "toggle_status_details"@.len()); }
            assert("recent_documents"@ != "new_document"@) by { assert("recent_documents"@.len() != "new_document"@.len()); }
        },
        RemapAction::Command(AppCommand::WritingFolder) => {
            assert("writing_folder"@ != "quit"@) by { assert("writing_folder"@.len() != "quit"@.len()); }
            assert("writing_folder"@ != "open_palette"@) by { assert("writing_folder"@.len() != "open_palette"@.len()); }
            assert("writing_folder"@ != "open_menu"@) by { assert("writing_folder"@.len() != "open_menu"@.len()); }
            assert("writing_folder"@ != "open_help"@) by { assert("writing_folder"@.len() != "open_help"@.len()); }
            assert("writing_folder"@ != "toggle_chrome_hidden"@) by { assert("writing_folder"@.len() != "toggle_chrome_hidden"@.len()); }
            assert("writing_folder"@ != "toggle_status_details"@) by { assert("writing_folder"@.len() != "toggle_status_details"@.len()); }
            assert("writing_folder"@ != "new_document"@) by { assert("writing_folder"@.len() != "new_document"@.len()); }
            assert("writing_folder"@ != "recent_documents"@) by { assert("writing_folder"@.len() != "recent_documents"@.len()); }
        },
        RemapAction::Command(AppCommand::Configuration) => {
            assert("configuration"@ != "quit"@) by { assert("configuration"@.len() != "quit"@.len()); }
            assert("configuration"@ != "open_palette"@) by { assert("configuration"@.len() != "open_palette"@.len()); }
            assert("configuration"@ != "open_menu"@) by { assert("configuration"@.len() != "open_menu"@.len()); }
            assert("configuration"@ != "open_help"@) by { assert("configuration"@.len() != "open_help"@.len()); }
            assert("configuration"@ != "toggle_chrome_hidden"@) by { assert("configuration"@.len() != "toggle_chrome_hidden"@.len()); }
            assert("configuration"@ != "toggle_status_details"@) by { assert("configuration"@.len() != "toggle_status_details"@.len()); }
            assert("configuration"@ != "new_document"@) by { assert("configuration"@.len() != "new_document"@.len()); }
            assert("configuration"@ != "recent_documents"@) by { assert("configuration"@.len() != "recent_documents"@.len()); }
            assert("configuration"@ != "writing_folder"@) by { assert("configuration"@.len() != "writing_folder"@.len()); }
            assert("configuration"@ != "document_browser"@) by { assert("configuration"@.len() != "document_browser"@.len()); }
        },
        RemapAction::Command(AppCommand::Save) => {
            assert("save"@ != "quit"@) by { assert("save"@[0] != "quit"@[0]); }
            assert("save"@ != "open_palette"@) by { assert("save"@.len() != "open_palette"@.len()); }
            assert("save"@ != "open_menu"@) by { assert("save"@.len() != "open_menu"@.len()); }
            assert("save"@ != "open_help"@) by { assert("save"@.len() != "open_help"@.len()); }
            assert("save"@ != "toggle_chrome_hidden"@) by { assert("save"@.len() != "toggle_chrome_hidden"@.len()); }
            assert("save"@ != "toggle_status_details"@) by { assert("save"@.len() != "toggle_status_details"@.len()); }
            assert("save"@ != "new_document"@) by { assert("save"@.len() != "new_document"@.len()); }
            assert("save"@ != "recent_documents"@) by { assert("save"@.len() != "recent_documents"@.len()); }
            assert("save"@ != "writing_folder"@) by { assert("save"@.len() != "writing_folder"@.len()); }
            assert("save"@ != "document_browser"@) by { assert("save"@.len() != "document_browser"@.len()); }
            assert("save"@ != "configuration"@) by { assert("save"@.len() != "configuration"@.len()); }
        },
        _ => {},
    }
}


/// The action that remaps `out` give binding `b`: that of the first entry
/// with that binding.
pub open spec fn remap_lookup(out: Seq<(KeyBinding, RemapAction)>, b: KeyBinding) -> Option<RemapAction> {
    match first_index(out.len() as int, bound_to(out, b)) {
        Some(j) => Some(out[j].1),
        None => None,
    }
}

/// No binding is taken twice in `out`.
pub open spec fn bindings_distinct(out: Seq<(KeyBinding, RemapAction)>) -> bool {
    forall|i: int, j: int| 0 <= i < j < out.len() ==> #[trigger] out[i].0 != #[trigger] out[j].0
}

/// Keymap entry `e` (an action's name and a binding) gives remap `r`.
pub open spec fn entry_bound(e: (Seq<char>, Seq<char>), r: (KeyBinding, RemapAction)) -> bool {
    key_binding_of(e.1) == Ok::<KeyBinding, Seq<char>>(r.0) && action_named(e.0) == Some(r.1)
}

proof fn lemma_remaps_extend(entries: Seq<(Seq<char>, Seq<char>)>, acc: Seq<(KeyBinding, RemapAction)>)
    requires
        bindings_distinct(acc),
    ensures
        runtime_remaps(entries, acc) matches Ok(out) ==> {
            &&& out.len() == acc.len() + entries.len()
            &&& bindings_distinct(out)
            &&& forall|i: int| 0 <= i < acc.len() ==> #[trigger] out[i] == acc[i]
            &&& forall|i: int| 0 <= i < entries.len() ==> entry_bound(entries[i], #[trigger] out[acc.len() + i])
        },
    decreases entries.len(),
{
    if entries.len() > 0 {
        if let Some(a) = action_named(entries[0].0) {
            if let Ok(b) = key_binding_of(entries[0].1) {
                let p = bound_to(acc, b);
                lemma_first_index_props(acc.len() as int, p);
                if first_index(acc.len() as int, p) is None {
                    let acc2 = acc.push((b, a));
                    assert forall|i: int, j: int| 0 <= i < j < acc2.len() implies #[trigger] acc2[i].0 != #[trigger] acc2[j].0 by {
                        if j == acc.len() {
                            assert(!p(i));
                        } else {
                            assert(acc2[i] == acc[i] && acc2[j] == acc[j]);
                        }
                    }
                    let rest = entries.drop_first();
                    lemma_remaps_extend(rest, acc2);
                    assert(runtime_remaps(entries, acc) == runtime_remaps(rest, acc2));
                    if let Ok(out) = runtime_remaps(entries, acc) {
                        assert(out.len() == acc.len() + entries.len());
                        assert forall|i: int| 0 <= i < acc.len() implies #[trigger] out[i] == acc[i] by {
                            assert(out[i] == acc2[i]);
                        }
                        assert forall|i: int| 0 <= i < entries.len() implies entry_bound(entries[i], #[trigger] out[acc.len() + i]) by {
                            if i == 0 {
                                assert(out[acc.len() as int] == acc2[acc.len() as int]);
                            } else {
                                assert(rest[i - 1] == entries[i]);
                                assert(out[acc2.len() + (i - 1)] == out[acc.len() + i]);
                            }
                        }
                    }
                }
            }
        }
    }
}

/// Once a keymap loads, each of its entries' bindings brings up the action
/// that the entry names.
pub proof fn lemma_runtime_remaps_bind(entries: Seq<(Seq<char>, Seq<char>)>)
    ensures
        runtime_remaps(entries, Seq::empty()) matches Ok(out) ==> forall|i: int| 0 <= i < entries.len()
            ==> (#[trigger] key_binding_of(entries[i].1) matches Ok(b) && remap_lookup(out, b)
            == action_named(entries[i].0)),
{
    let e = Seq::<(KeyBinding, RemapAction)>::empty();
    lemma_remaps_extend(entries, e);
    if let Ok(out) = runtime_remaps(entries, e) {
        assert forall|i: int| 0 <= i < entries.len() implies (#[trigger] key_binding_of(entries[i].1) matches Ok(b)
            && remap_lookup(out, b) == action_named(entries[i].0)) by {
            assert(out[0 + i] == out[i]);
            assert(entry_bound(entries[i], out[i]));
            let b = out[i].0;
            let p = bound_to(out, b);
            lemma_first_index_props(out.len() as int, p);
            assert(p(i));
            if let Some(j) = first_index(out.len() as int, p) {
                if j < i {
                    assert(out[j].0 != out[i].0);
                }
            }
        }
    }
}

} // verus!
