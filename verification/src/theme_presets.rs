//! Built-in theme presets: `dark`, `light`, and a bundled catalog.

use vstd::prelude::*;

use crate::config::{
    catalog_of, default_theme, lookup, named_view, parse_preset_catalog, strings_view, Theme,
    ThemeError, ThemeErrorView,
};
use crate::strings::{ascii_lowered, dash_words, dashed, joined, lower_chars, string_of_chars, trim_chars, trimmed, ws_words};
use crate::text::text_chars;

verus! {

/// The bundled preset catalog: a TOML document with a `presets` table.
pub const BUNDLED_THEME_PRESETS: &'static str = "[presets]\n";

/// The light theme's role values.
pub open spec fn light_theme() -> Seq<Seq<char>> {
    seq![
        "white"@,
        "black"@,
        "magenta"@,
        "blue"@,
        "red"@,
        "gray"@,
        "magenta"@,
        "white"@,
        "magenta"@,
        ""@,
        ""@,
        ""@,
        ""@,
        ""@,
        ""@,
    ]
}

pub fn dark() -> (t: Theme)
    ensures
        t@ == default_theme(),
{
    Theme::default()
}

pub fn light() -> (t: Theme)
    ensures
        t@ == light_theme(),
{
    Theme {
        background: "white".to_string(),
        foreground: "black".to_string(),
        accent: "magenta".to_string(),
        link: "blue".to_string(),
        link_missing: "red".to_string(),
        cursor_line: "gray".to_string(),
        code: "magenta".to_string(),
        list_selection_foreground: "white".to_string(),
        list_selection_background: "magenta".to_string(),
        heading1: "".to_string(),
        heading2: "".to_string(),
        heading3: "".to_string(),
        heading4: "".to_string(),
        heading5: "".to_string(),
        heading6: "".to_string(),
    }
}

/// A preset name trimmed, in ASCII lower case, with `_` made `-` and its
/// words joined by single dashes.
pub open spec fn slug_of(raw: Seq<char>) -> Seq<char> {
    joined(ws_words(dashed(ascii_lowered(trimmed(raw)))), seq!['-'])
}

pub fn normalize_slug(raw: &str) -> (s: String)
    ensures
        s@ == slug_of(raw@),
{
    let v = text_chars(raw);
    let t = trim_chars(&v);
    let l = lower_chars(&t);
    let d = dash_words(&l);
    string_of_chars(&d)
}

/// The bundled catalog.
pub open spec fn bundled_catalog() -> Result<Seq<(Seq<char>, Seq<Seq<char>>)>, ThemeErrorView> {
    catalog_of(BUNDLED_THEME_PRESETS@)
}

/// Names of the presets: `dark`, `light`, then the bundled catalog's in
/// order (none when the catalog does not parse).
pub open spec fn known_preset_names() -> Seq<Seq<char>> {
    seq!["dark"@, "light"@] + match bundled_catalog() {
        Ok(c) => Seq::new(c.len(), |i: int| c[i].0),
        Err(_) => Seq::empty(),
    }
}

/// The theme of preset `raw`: `dark` and `light` are built in; other names
/// are looked up in the bundled catalog.
pub open spec fn resolved_preset(raw: Seq<char>) -> Result<Seq<Seq<char>>, ThemeErrorView> {
    let slug = slug_of(raw);
    if slug == "dark"@ {
        Ok(default_theme())
    } else if slug == "light"@ {
        Ok(light_theme())
    } else {
        match bundled_catalog() {
            Err(e) => Err(e),
            Ok(c) => match lookup(c, slug) {
                Some(t) => Ok(t),
                None => Err(ThemeErrorView::UnknownPreset { value: raw, known: known_preset_names() }),
            },
        }
    }
}

fn catalog() -> (r: Result<Vec<(String, Theme)>, ThemeError>)
    ensures
        match bundled_catalog() {
            Ok(c) => r matches Ok(v) && named_view(v@) == c,
            Err(e) => r matches Err(x) && x@ == e,
        },
{
    parse_preset_catalog(BUNDLED_THEME_PRESETS)
}

fn catalog_get(c: &Vec<(String, Theme)>, slug: &str) -> (r: Option<Theme>)
    ensures
        match lookup(named_view(c@), slug@) {
            Some(t) => r matches Some(x) && x@ == t,
            None => r is None,
        },
{
    let ghost cv = named_view(c@);
    let ghost p = crate::config::key_is(cv, slug@);
    let sc = text_chars(slug);
    let mut i: usize = 0;
    while i < c.len()
        invariant
            i <= c@.len(),
            cv == named_view(c@),
            p == crate::config::key_is(cv, slug@),
            sc@ == slug@,
            crate::search::first_index(i as int, p) is None,
        decreases c@.len() - i,
    {
        let ec = text_chars(c[i].0.as_str());
        if crate::config::chars_are_chars(&ec, &sc) {
            assert(crate::search::first_index(i + 1, p) == Some(i as int));
            proof {
                crate::search::lemma_first_index_extends(i + 1, cv.len() as int, p);
            }
            return Some(copy_theme(&c[i].1));
        }
        i = i + 1;
    }
    None
}

/// A copy of `t`.
pub fn copy_theme(t: &Theme) -> (r: Theme)
    ensures
        r@ == t@,
{
    Theme {
        background: t.background.as_str().to_string(),
        foreground: t.foreground.as_str().to_string(),
        accent: t.accent.as_str().to_string(),
        link: t.link.as_str().to_string(),
        link_missing: t.link_missing.as_str().to_string(),
        cursor_line: t.cursor_line.as_str().to_string(),
        code: t.code.as_str().to_string(),
        list_selection_foreground: t.list_selection_foreground.as_str().to_string(),
        list_selection_background: t.list_selection_background.as_str().to_string(),
        heading1: t.heading1.as_str().to_string(),
        heading2: t.heading2.as_str().to_string(),
        heading3: t.heading3.as_str().to_string(),
        heading4: t.heading4.as_str().to_string(),
        heading5: t.heading5.as_str().to_string(),
        heading6: t.heading6.as_str().to_string(),
    }
}

pub fn known_presets() -> (names: Vec<String>)
    ensures
        strings_view(names@) == known_preset_names(),
{
    let mut known: Vec<String> = Vec::new();
    known.push("dark".to_string());
    known.push("light".to_string());
    if let Ok(c) = catalog() {
        let ghost cv = named_view(c@);
        let mut i: usize = 0;
        while i < c.len()
            invariant
                i <= c@.len(),
                cv == named_view(c@),
                strings_view(known@) == seq!["dark"@, "light"@] + Seq::new(i as nat, |j: int| cv[j].0),
            decreases c@.len() - i,
        {
            let ghost before = strings_view(known@);
            assert(cv[i as int].0 == c@[i as int].0@);
            known.push(c[i].0.as_str().to_string());
            assert(strings_view(known@) =~= before.push(cv[i as int].0));
            assert(strings_view(known@) =~= seq!["dark"@, "light"@] + Seq::new((i + 1) as nat, |j: int| cv[j].0));
            i = i + 1;
        }
        assert(Seq::new(i as nat, |j: int| cv[j].0) =~= Seq::new(cv.len(), |j: int| cv[j].0));
    } else {
        assert(strings_view(known@) =~= seq!["dark"@, "light"@] + Seq::<Seq<char>>::empty());
    }
    known
}

pub fn resolve_preset(raw_slug: &str) -> (r: Result<Theme, ThemeError>)
    ensures
        match resolved_preset(raw_slug@) {
            Ok(t) => r matches Ok(x) && x@ == t,
            Err(e) => r matches Err(x) && x@ == e,
        },
{
    let slug = normalize_slug(raw_slug);
    let sc = text_chars(slug.as_str());
    if crate::strings::chars_are(&sc, "dark") {
        return Ok(dark());
    }
    if crate::strings::chars_are(&sc, "light") {
        return Ok(light());
    }
    let c = catalog()?;
    match catalog_get(&c, slug.as_str()) {
        Some(t) => Ok(t),
        None => Err(ThemeError::UnknownPreset { value: raw_slug.to_string(), known: known_presets() }),
    }
}

/// Checks that the bundled catalog parses.
pub fn validate_bundled_presets() -> (r: Result<(), ThemeError>)
    ensures
        match bundled_catalog() {
            Ok(_) => r is Ok,
            Err(e) => r matches Err(x) && x@ == e,
        },
{
    let _ = catalog()?;
    Ok(())
}

} // verus!
