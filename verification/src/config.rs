//! TOML configuration: theme roles and colors, spacing, typography, cursor,
//! editor, UI, key remaps, and paths.

use std::path::PathBuf;

use vstd::prelude::*;

use crate::strings::{
    ascii_lowered, chars_are, concat_str, grey_to_gray, grey_to_gray_chars, joined, lower_chars,
    string_of_chars, trim_chars, trimmed,
};
use crate::theme_presets::slug_of;
use crate::search::{first_index, lemma_first_index_extends, lemma_first_index_props};
use crate::text::text_chars;

verus! {

/// A parsed TOML value, as far as the configuration reads it: strings,
/// integers, booleans and tables (entries in key order); floats, dates and
/// arrays are `Other`.
#[derive(Debug)]
pub enum ConfigValue {
    Str(String),
    Integer(i64),
    Boolean(bool),
    Table(Vec<(String, ConfigValue)>),
    Other,
}

/// Model of a configuration value.
pub enum ConfigValueView {
    Str(Seq<char>),
    Integer(i64),
    Boolean(bool),
    Table(Seq<(Seq<char>, ConfigValueView)>),
    Other,
}

pub open spec fn config_value_view(v: ConfigValue) -> ConfigValueView
    decreases v,
{
    match v {
        ConfigValue::Str(s) => ConfigValueView::Str(s@),
        ConfigValue::Integer(i) => ConfigValueView::Integer(i),
        ConfigValue::Boolean(b) => ConfigValueView::Boolean(b),
        ConfigValue::Table(t) => ConfigValueView::Table(entries_view(t@)),
        ConfigValue::Other => ConfigValueView::Other,
    }
}

pub open spec fn entries_view(t: Seq<(String, ConfigValue)>) -> Seq<(Seq<char>, ConfigValueView)>
    decreases t,
{
    Seq::new(
        t.len(),
        |i: int|
            if 0 <= i < t.len() {
                (t[i].0@, config_value_view(t[i].1))
            } else {
                (Seq::empty(), ConfigValueView::Other)
            },
    )
}

impl View for ConfigValue {
    type V = ConfigValueView;

    open spec fn view(&self) -> ConfigValueView {
        config_value_view(*self)
    }
}

#[verifier::external_type_specification]
#[verifier::external_body]
pub struct ExTomlValue(toml::Value);

#[verifier::external_type_specification]
#[verifier::external_body]
pub struct ExTomlError(toml::de::Error);

#[verifier::external_type_specification]
#[verifier::external_body]
pub struct ExIoError(std::io::Error);

#[verifier::external_type_specification]
#[verifier::external_body]
pub struct ExPathBuf(PathBuf);

/// Whether `PathBuf`'s `==` finds `a` and `b` equal (it compares their
/// components).
pub uninterp spec fn path_equal(a: PathBuf, b: PathBuf) -> bool;

/// `PathBuf::clone`: a copy of the path, which `==` finds equal to it.
pub assume_specification[ <PathBuf as Clone>::clone ](p: &PathBuf) -> (res: PathBuf)
    ensures
        path_equal(res, *p),
;

/// The document that `toml::from_str::<toml::Value>` reads from `raw`, in the
/// library's model; `None` when the text is not TOML.
pub uninterp spec fn toml_document(raw: Seq<char>) -> Option<ConfigValueView>;

/// `toml::from_str::<toml::Value>`: parses a TOML document. Its result is
/// `toml_document` of the text, and its error comes exactly when that is
/// `None`; nothing is stated of what the document holds.
#[verifier::external_body]
fn parse_toml(raw: &str) -> (r: Result<ConfigValue, toml::de::Error>)
    ensures
        match r {
            Ok(v) => toml_document(raw@) == Some(v@),
            Err(_) => toml_document(raw@) is None,
        },
{
    match toml::from_str::<toml::Value>(raw) {
        Ok(v) => Ok(config_value_of(&v)),
        Err(e) => Err(e),
    }
}

/// A `toml::Value` in the library's model, one variant for one; table
/// entries keep the table's order.
#[verifier::external_body]
fn config_value_of(v: &toml::Value) -> ConfigValue {
    match v {
        toml::Value::String(s) => ConfigValue::Str(s.clone()),
        toml::Value::Integer(i) => ConfigValue::Integer(*i),
        toml::Value::Boolean(b) => ConfigValue::Boolean(*b),
        toml::Value::Table(t) => ConfigValue::Table(
            t.iter().map(|(k, x)| (k.clone(), config_value_of(x))).collect(),
        ),
        _ => ConfigValue::Other,
    }
}

/// The `Display` text of a TOML error (what `toml::de::Error` prints);
/// nothing is stated of the text.
#[verifier::external_body]
fn toml_error_text(e: &toml::de::Error) -> String {
    e.to_string()
}

/// The `Display` text of an I/O error; nothing is stated of the text.
#[verifier::external_body]
fn io_error_text(e: &std::io::Error) -> String {
    e.to_string()
}

/// A theme role; each names one color of the theme.
#[derive(Clone, Copy, Debug, PartialEq, Eq)]
pub enum ThemeRole {
    Background,
    Foreground,
    Accent,
    Link,
    LinkMissing,
    CursorLine,
    Code,
    ListSelectionForeground,
    ListSelectionBackground,
    Heading1,
    Heading2,
    Heading3,
    Heading4,
    Heading5,
    Heading6,
}

/// Position of `r` in the theme's model.
pub open spec fn role_index(r: ThemeRole) -> int {
    match r {
        ThemeRole::Background => 0,
        ThemeRole::Foreground => 1,
        ThemeRole::Accent => 2,
        ThemeRole::Link => 3,
        ThemeRole::LinkMissing => 4,
        ThemeRole::CursorLine => 5,
        ThemeRole::Code => 6,
        ThemeRole::ListSelectionForeground => 7,
        ThemeRole::ListSelectionBackground => 8,
        ThemeRole::Heading1 => 9,
        ThemeRole::Heading2 => 10,
        ThemeRole::Heading3 => 11,
        ThemeRole::Heading4 => 12,
        ThemeRole::Heading5 => 13,
        ThemeRole::Heading6 => 14,
    }
}

/// The role whose config key is `k`.
pub open spec fn role_of_key(k: Seq<char>) -> Option<ThemeRole> {
    if k == "background"@ {
        Some(ThemeRole::Background)
    } else if k == "foreground"@ {
        Some(ThemeRole::Foreground)
    } else if k == "accent"@ {
        Some(ThemeRole::Accent)
    } else if k == "link"@ {
        Some(ThemeRole::Link)
    } else if k == "link_missing"@ {
        Some(ThemeRole::LinkMissing)
    } else if k == "cursor_line"@ {
        Some(ThemeRole::CursorLine)
    } else if k == "code"@ {
        Some(ThemeRole::Code)
    } else if k == "list_selection_foreground"@ {
        Some(ThemeRole::ListSelectionForeground)
    } else if k == "list_selection_background"@ {
        Some(ThemeRole::ListSelectionBackground)
    } else if k == "heading1"@ {
        Some(ThemeRole::Heading1)
    } else if k == "heading2"@ {
        Some(ThemeRole::Heading2)
    } else if k == "heading3"@ {
        Some(ThemeRole::Heading3)
    } else if k == "heading4"@ {
        Some(ThemeRole::Heading4)
    } else if k == "heading5"@ {
        Some(ThemeRole::Heading5)
    } else if k == "heading6"@ {
        Some(ThemeRole::Heading6)
    } else {
        None
    }
}

/// The config key of role `r`.
pub open spec fn key_of_role(r: ThemeRole) -> Seq<char> {
    match r {
        ThemeRole::Background => "background"@,
        ThemeRole::Foreground => "foreground"@,
        ThemeRole::Accent => "accent"@,
        ThemeRole::Link => "link"@,
        ThemeRole::LinkMissing => "link_missing"@,
        ThemeRole::CursorLine => "cursor_line"@,
        ThemeRole::Code => "code"@,
        ThemeRole::ListSelectionForeground => "list_selection_foreground"@,
        ThemeRole::ListSelectionBackground => "list_selection_background"@,
        ThemeRole::Heading1 => "heading1"@,
        ThemeRole::Heading2 => "heading2"@,
        ThemeRole::Heading3 => "heading3"@,
        ThemeRole::Heading4 => "heading4"@,
        ThemeRole::Heading5 => "heading5"@,
        ThemeRole::Heading6 => "heading6"@,
    }
}

/// The role with position `i`.
pub open spec fn role_at(i: int) -> ThemeRole {
    if i == 0 {
        ThemeRole::Background
    } else if i == 1 {
        ThemeRole::Foreground
    } else if i == 2 {
        ThemeRole::Accent
    } else if i == 3 {
        ThemeRole::Link
    } else if i == 4 {
        ThemeRole::LinkMissing
    } else if i == 5 {
        ThemeRole::CursorLine
    } else if i == 6 {
        ThemeRole::Code
    } else if i == 7 {
        ThemeRole::ListSelectionForeground
    } else if i == 8 {
        ThemeRole::ListSelectionBackground
    } else if i == 9 {
        ThemeRole::Heading1
    } else if i == 10 {
        ThemeRole::Heading2
    } else if i == 11 {
        ThemeRole::Heading3
    } else if i == 12 {
        ThemeRole::Heading4
    } else if i == 13 {
        ThemeRole::Heading5
    } else {
        ThemeRole::Heading6
    }
}

#[derive(Clone, Debug, PartialEq, Eq)]
pub struct Theme {
    pub background: String,
    pub foreground: String,
    pub accent: String,
    pub link: String,
    pub link_missing: String,
    pub cursor_line: String,
    pub code: String,
    pub list_selection_foreground: String,
    pub list_selection_background: String,
    pub heading1: String,
    pub heading2: String,
    pub heading3: String,
    pub heading4: String,
    pub heading5: String,
    pub heading6: String,
}

/// A theme as the values of its roles, in `role_index` order.
impl View for Theme {
    type V = Seq<Seq<char>>;

    open spec fn view(&self) -> Seq<Seq<char>> {
        seq![
            self.background@,
            self.foreground@,
            self.accent@,
            self.link@,
            self.link_missing@,
            self.cursor_line@,
            self.code@,
            self.list_selection_foreground@,
            self.list_selection_background@,
            self.heading1@,
            self.heading2@,
            self.heading3@,
            self.heading4@,
            self.heading5@,
            self.heading6@,
        ]
    }
}

/// The default (dark) theme's role values.
pub open spec fn default_theme() -> Seq<Seq<char>> {
    seq![
        "black"@,
        "white"@,
        "green"@,
        "cyan"@,
        "red"@,
        "darkgray"@,
        "yellow"@,
        "black"@,
        "green"@,
        ""@,
        ""@,
        ""@,
        ""@,
        ""@,
        ""@,
    ]
}

impl Default for Theme {
    fn default() -> (t: Self)
        ensures
            t@ == default_theme(),
    {
        Self {
            background: "black".to_string(),
            foreground: "white".to_string(),
            accent: "green".to_string(),
            link: "cyan".to_string(),
            link_missing: "red".to_string(),
            cursor_line: "darkgray".to_string(),
            code: "yellow".to_string(),
            list_selection_foreground: "black".to_string(),
            list_selection_background: "green".to_string(),
            heading1: "".to_string(),
            heading2: "".to_string(),
            heading3: "".to_string(),
            heading4: "".to_string(),
            heading5: "".to_string(),
            heading6: "".to_string(),
        }
    }
}

/// The role whose config key is `key`.
fn role_for_key(key: &str) -> (r: Option<ThemeRole>)
    ensures
        r == role_of_key(key@),
{
    let k = text_chars(key);
    if chars_are(&k, "background") {
        Some(ThemeRole::Background)
    } else if chars_are(&k, "foreground") {
        Some(ThemeRole::Foreground)
    } else if chars_are(&k, "accent") {
        Some(ThemeRole::Accent)
    } else if chars_are(&k, "link") {
        Some(ThemeRole::Link)
    } else if chars_are(&k, "link_missing") {
        Some(ThemeRole::LinkMissing)
    } else if chars_are(&k, "cursor_line") {
        Some(ThemeRole::CursorLine)
    } else if chars_are(&k, "code") {
        Some(ThemeRole::Code)
    } else if chars_are(&k, "list_selection_foreground") {
        Some(ThemeRole::ListSelectionForeground)
    } else if chars_are(&k, "list_selection_background") {
        Some(ThemeRole::ListSelectionBackground)
    } else if chars_are(&k, "heading1") {
        Some(ThemeRole::Heading1)
    } else if chars_are(&k, "heading2") {
        Some(ThemeRole::Heading2)
    } else if chars_are(&k, "heading3") {
        Some(ThemeRole::Heading3)
    } else if chars_are(&k, "heading4") {
        Some(ThemeRole::Heading4)
    } else if chars_are(&k, "heading5") {
        Some(ThemeRole::Heading5)
    } else if chars_are(&k, "heading6") {
        Some(ThemeRole::Heading6)
    } else {
        None
    }
}

impl Theme {
    pub fn value_for(&self, role: ThemeRole) -> (v: &str)
        ensures
            v@ == self@[role_index(role)],
    {
        match role {
            ThemeRole::Background => self.background.as_str(),
            ThemeRole::Foreground => self.foreground.as_str(),
            ThemeRole::Accent => self.accent.as_str(),
            ThemeRole::Link => self.link.as_str(),
            ThemeRole::LinkMissing => self.link_missing.as_str(),
            ThemeRole::CursorLine => self.cursor_line.as_str(),
            ThemeRole::Code => self.code.as_str(),
            ThemeRole::ListSelectionForeground => self.list_selection_foreground.as_str(),
            ThemeRole::ListSelectionBackground => self.list_selection_background.as_str(),
            ThemeRole::Heading1 => self.heading1.as_str(),
            ThemeRole::Heading2 => self.heading2.as_str(),
            ThemeRole::Heading3 => self.heading3.as_str(),
            ThemeRole::Heading4 => self.heading4.as_str(),
            ThemeRole::Heading5 => self.heading5.as_str(),
            ThemeRole::Heading6 => self.heading6.as_str(),
        }
    }

    fn set_role(&mut self, role: ThemeRole, v: String)
        ensures
            final(self)@ == old(self)@.update(role_index(role), v@),
    {
        match role {
            ThemeRole::Background => self.background = v,
            ThemeRole::Foreground => self.foreground = v,
            ThemeRole::Accent => self.accent = v,
            ThemeRole::Link => self.link = v,
            ThemeRole::LinkMissing => self.link_missing = v,
            ThemeRole::CursorLine => self.cursor_line = v,
            ThemeRole::Code => self.code = v,
            ThemeRole::ListSelectionForeground => self.list_selection_foreground = v,
            ThemeRole::ListSelectionBackground => self.list_selection_background = v,
            ThemeRole::Heading1 => self.heading1 = v,
            ThemeRole::Heading2 => self.heading2 = v,
            ThemeRole::Heading3 => self.heading3 = v,
            ThemeRole::Heading4 => self.heading4 = v,
            ThemeRole::Heading5 => self.heading5 = v,
            ThemeRole::Heading6 => self.heading6 = v,
        }
        assert(self@ =~= old(self)@.update(role_index(role), v@));
    }
}

/// Model of a configuration error.
pub enum ThemeErrorView {
    Io,
    InvalidToml,
    InvalidType { field: Seq<char>, expected: Seq<char> },
    UnknownThemeKey(Seq<char>),
    UnknownPreset { value: Seq<char>, known: Seq<Seq<char>> },
    EmptyRequiredField(Seq<char>),
    InvalidColorName { field: Seq<char>, value: Seq<char> },
    InvalidRange { field: Seq<char>, min: usize, max: usize, value: usize },
    InvalidEnum { field: Seq<char>, value: Seq<char>, expected: Seq<Seq<char>> },
}

#[derive(Debug)]
pub enum ThemeError {
    Io(std::io::Error),
    InvalidToml(toml::de::Error),
    InvalidType { field: String, expected: String },
    UnknownThemeKey(String),
    UnknownPreset { value: String, known: Vec<String> },
    EmptyRequiredField(String),
    InvalidColorName { field: String, value: String },
    InvalidRange { field: String, min: usize, max: usize, value: usize },
    InvalidEnum { field: String, value: String, expected: Vec<&'static str> },
}

pub open spec fn strings_view(v: Seq<String>) -> Seq<Seq<char>> {
    Seq::new(v.len(), |i: int| v[i]@)
}

pub open spec fn strs_view(v: Seq<&'static str>) -> Seq<Seq<char>> {
    Seq::new(v.len(), |i: int| v[i]@)
}

impl View for ThemeError {
    type V = ThemeErrorView;

    open spec fn view(&self) -> ThemeErrorView {
        match self {
            ThemeError::Io(_) => ThemeErrorView::Io,
            ThemeError::InvalidToml(_) => ThemeErrorView::InvalidToml,
            ThemeError::InvalidType { field, expected } => ThemeErrorView::InvalidType {
                field: field@,
                expected: expected@,
            },
            ThemeError::UnknownThemeKey(k) => ThemeErrorView::UnknownThemeKey(k@),
            ThemeError::UnknownPreset { value, known } => ThemeErrorView::UnknownPreset {
                value: value@,
                known: strings_view(known@),
            },
            ThemeError::EmptyRequiredField(f) => ThemeErrorView::EmptyRequiredField(f@),
            ThemeError::InvalidColorName { field, value } => ThemeErrorView::InvalidColorName {
                field: field@,
                value: value@,
            },
            ThemeError::InvalidRange { field, min, max, value } => ThemeErrorView::InvalidRange {
                field: field@,
                min: *min,
                max: *max,
                value: *value,
            },
            ThemeError::InvalidEnum { field, value, expected } => ThemeErrorView::InvalidEnum {
                field: field@,
                value: value@,
                expected: strs_view(expected@),
            },
        }
    }
}

/// Decimal digits of `n`.
pub open spec fn decimal(n: nat) -> Seq<char>
    decreases n,
{
    if n < 10 {
        seq![digit_char(n)]
    } else {
        decimal(n / 10).push(digit_char(n % 10))
    }
}

pub open spec fn digit_char(d: nat) -> char {
    (('0' as u32) + d) as char
}

/// The text of an error that holds no outside error.
pub open spec fn error_text(e: ThemeErrorView) -> Option<Seq<char>> {
    match e {
        ThemeErrorView::Io => None,
        ThemeErrorView::InvalidToml => None,
        ThemeErrorView::InvalidType { field, expected } => Some(
            "invalid type for `"@ + field + "` (expected "@ + expected + ")"@,
        ),
        ThemeErrorView::UnknownThemeKey(key) => Some(
            "unknown theme role `"@ + key + "` in [theme] table"@,
        ),
        ThemeErrorView::UnknownPreset { value, known } => Some(
            "theme_preset: unknown value \""@ + value + "\" (known: "@ + joined(known, ", "@)
                + ")"@,
        ),
        ThemeErrorView::EmptyRequiredField(field) => Some(
            "theme role `"@ + field + "` cannot be empty"@,
        ),
        ThemeErrorView::InvalidColorName { field, value } => Some(
            "theme role `"@ + field + "` has invalid ANSI color name `"@ + value + "`"@,
        ),
        ThemeErrorView::InvalidRange { field, min, max, value } => Some(
            "invalid value for `"@ + field + "`: "@ + decimal(value as nat) + " (expected "@
                + decimal(min as nat) + "..="@ + decimal(max as nat) + ")"@,
        ),
        ThemeErrorView::InvalidEnum { field, value, expected } => Some(
            "invalid value for `"@ + field + "`: `"@ + value + "` (expected one of: "@ + joined(
                expected,
                ", "@,
            ) + ")"@,
        ),
    }
}

/// Decimal text of `n`.
pub fn decimal_string(n: usize) -> (s: String)
    ensures
        s@ == decimal(n as nat),
{
    let mut digits: Vec<char> = Vec::new();
    let mut m: usize = n;
    while m >= 10
        invariant
            decimal(n as nat) == decimal(m as nat) + digits@.reverse(),
        decreases m,
    {
        let d = m % 10;
        let c = digit(d);
        proof {
            assert(decimal(m as nat) == decimal((m / 10) as nat).push(digit_char((m % 10) as nat)));
            assert(digits@.push(c).reverse() =~= seq![c] + digits@.reverse());
            assert(decimal((m / 10) as nat).push(c) + digits@.reverse() =~= decimal((m / 10) as nat) + digits@.push(c).reverse());
        }
        digits.push(c);
        m = m / 10;
    }
    let c = digit(m);
    digits.push(c);
    assert(decimal(m as nat) == seq![c]);
    assert(digits@.reverse() =~= seq![c] + digits@.drop_last().reverse());
    let mut s = String::new();
    let mut i: usize = digits.len();
    while i > 0
        invariant
            i <= digits@.len(),
            s@ == digits@.skip(i as int).reverse(),
        decreases i,
    {
        i = i - 1;
        crate::strings::string_push(&mut s, digits[i]);
        assert(digits@.skip(i as int).reverse() =~= digits@.skip(i + 1).reverse().push(digits@[i as int]));
    }
    assert(digits@.skip(0) =~= digits@);
    s
}

fn digit(d: usize) -> (c: char)
    requires
        d < 10,
    ensures
        c == digit_char(d as nat),
{
    let b: u8 = 48 + d as u8;
    let c = b as char;
    assert(c as u32 == 48 + d);
    c
}

fn join_strings(parts: &Vec<String>, sep: &str, out: &mut String)
    ensures
        final(out)@ == old(out)@ + joined(strings_view(parts@), sep@),
{
    let ghost v = strings_view(parts@);
    let mut i: usize = 0;
    assert(v.take(0) =~= Seq::<Seq<char>>::empty());
    assert(old(out)@ + joined(v.take(0), sep@) =~= old(out)@);
    while i < parts.len()
        invariant
            i <= parts@.len(),
            v == strings_view(parts@),
            out@ == old(out)@ + joined(v.take(i as int), sep@),
        decreases parts@.len() - i,
    {
        assert(v.take(i + 1).drop_last() =~= v.take(i as int));
        assert(v.take(i + 1).last() == parts@[i as int]@);
        if i > 0 {
            out.append(sep);
        }
        out.append(parts[i].as_str());
        proof {
            if i == 0 {
                assert(v.take(1).len() == 1);
            }
        }
        i = i + 1;
    }
    assert(v.take(i as int) =~= v);
}

fn join_strs(parts: &Vec<&'static str>, sep: &str, out: &mut String)
    ensures
        final(out)@ == old(out)@ + joined(strs_view(parts@), sep@),
{
    let ghost v = strs_view(parts@);
    let mut i: usize = 0;
    assert(v.take(0) =~= Seq::<Seq<char>>::empty());
    assert(old(out)@ + joined(v.take(0), sep@) =~= old(out)@);
    while i < parts.len()
        invariant
            i <= parts@.len(),
            v == strs_view(parts@),
            out@ == old(out)@ + joined(v.take(i as int), sep@),
        decreases parts@.len() - i,
    {
        assert(v.take(i + 1).drop_last() =~= v.take(i as int));
        assert(v.take(i + 1).last() == parts@[i as int]@);
        if i > 0 {
            out.append(sep);
        }
        out.append(parts[i]);
        proof {
            if i == 0 {
                assert(v.take(1).len() == 1);
            }
        }
        i = i + 1;
    }
    assert(v.take(i as int) =~= v);
}

impl ThemeError {
    /// The error's text, as its `Display` would print it.
    pub fn message(&self) -> (m: String)
        ensures
            error_text(self@) matches Some(t) ==> m@ == t,
            self@ is InvalidToml ==> exists|t: Seq<char>| m@ == "invalid TOML config: "@ + t,
    {
        let mut m = String::new();
        match self {
            ThemeError::Io(err) => {
                m = io_error_text(err);
            },
            ThemeError::InvalidToml(err) => {
                m.append("invalid TOML config: ");
                let t = toml_error_text(err);
                m.append(t.as_str());
                assert(m@ == "invalid TOML config: "@ + t@);
            },
            ThemeError::InvalidType { field, expected } => {
                m.append("invalid type for `");
                m.append(field.as_str());
                m.append("` (expected ");
                m.append(expected.as_str());
                m.append(")");
            },
            ThemeError::UnknownThemeKey(key) => {
                m.append("unknown theme role `");
                m.append(key.as_str());
                m.append("` in [theme] table");
            },
            ThemeError::UnknownPreset { value, known } => {
                m.append("theme_preset: unknown value \"");
                m.append(value.as_str());
                m.append("\" (known: ");
                join_strings(known, ", ", &mut m);
                m.append(")");
            },
            ThemeError::EmptyRequiredField(field) => {
                m.append("theme role `");
                m.append(field.as_str());
                m.append("` cannot be empty");
            },
            ThemeError::InvalidColorName { field, value } => {
                m.append("theme role `");
                m.append(field.as_str());
                m.append("` has invalid ANSI color name `");
                m.append(value.as_str());
                m.append("`");
            },
            ThemeError::InvalidRange { field, min, max, value } => {
                m.append("invalid value for `");
                m.append(field.as_str());
                m.append("`: ");
                let v = decimal_string(*value);
                m.append(v.as_str());
                m.append(" (expected ");
                let lo = decimal_string(*min);
                m.append(lo.as_str());
                m.append("..=");
                let hi = decimal_string(*max);
                m.append(hi.as_str());
                m.append(")");
            },
            ThemeError::InvalidEnum { field, value, expected } => {
                m.append("invalid value for `");
                m.append(field.as_str());
                m.append("`: `");
                m.append(value.as_str());
                m.append("` (expected one of: ");
                join_strs(expected, ", ", &mut m);
                m.append(")");
            },
        }
        m
    }
}

/// The ANSI colors a theme may name.
#[derive(Clone, Copy, Debug, PartialEq, Eq)]
pub enum AnsiColor {
    Black,
    Red,
    Green,
    Yellow,
    Blue,
    Magenta,
    Cyan,
    White,
    DarkGray,
    Gray,
}

/// A color name trimmed, in ASCII lower case, with `grey` spelled `gray`.
pub open spec fn normalized_color(s: Seq<char>) -> Seq<char> {
    grey_to_gray(ascii_lowered(trimmed(s)))
}

/// The color that normalized name `n` names.
pub open spec fn color_named(n: Seq<char>) -> Option<AnsiColor> {
    if n == "black"@ {
        Some(AnsiColor::Black)
    } else if n == "red"@ {
        Some(AnsiColor::Red)
    } else if n == "green"@ {
        Some(AnsiColor::Green)
    } else if n == "yellow"@ {
        Some(AnsiColor::Yellow)
    } else if n == "blue"@ {
        Some(AnsiColor::Blue)
    } else if n == "magenta"@ {
        Some(AnsiColor::Magenta)
    } else if n == "cyan"@ {
        Some(AnsiColor::Cyan)
    } else if n == "white"@ {
        Some(AnsiColor::White)
    } else if n == "darkgray"@ || n == "dark_gray"@ {
        Some(AnsiColor::DarkGray)
    } else if n == "gray"@ {
        Some(AnsiColor::Gray)
    } else {
        None
    }
}

/// The color `value` names, whatever its spacing, case, or grey/gray spelling.
pub open spec fn color_of(value: Seq<char>) -> Option<AnsiColor> {
    color_named(normalized_color(value))
}

fn normalized_chars(value: &str) -> (r: Vec<char>)
    ensures
        r@ == normalized_color(value@),
{
    let v = text_chars(value);
    let t = trim_chars(&v);
    let l = lower_chars(&t);
    grey_to_gray_chars(&l)
}

pub fn normalize_color_name(value: &str) -> (r: String)
    ensures
        r@ == normalized_color(value@),
{
    let n = normalized_chars(value);
    string_of_chars(&n)
}

pub fn parse_ansi_color_name(value: &str) -> (r: Option<AnsiColor>)
    ensures
        r == color_of(value@),
{
    let n = normalized_chars(value);
    if chars_are(&n, "black") {
        Some(AnsiColor::Black)
    } else if chars_are(&n, "red") {
        Some(AnsiColor::Red)
    } else if chars_are(&n, "green") {
        Some(AnsiColor::Green)
    } else if chars_are(&n, "yellow") {
        Some(AnsiColor::Yellow)
    } else if chars_are(&n, "blue") {
        Some(AnsiColor::Blue)
    } else if chars_are(&n, "magenta") {
        Some(AnsiColor::Magenta)
    } else if chars_are(&n, "cyan") {
        Some(AnsiColor::Cyan)
    } else if chars_are(&n, "white") {
        Some(AnsiColor::White)
    } else if chars_are(&n, "darkgray") || chars_are(&n, "dark_gray") {
        Some(AnsiColor::DarkGray)
    } else if chars_are(&n, "gray") {
        Some(AnsiColor::Gray)
    } else {
        None
    }
}

/// Whether `r` is one of the six heading roles.
pub open spec fn is_heading(r: ThemeRole) -> bool {
    role_index(r) >= 9
}

/// The color a theme gives role `role`: an empty heading falls back to the
/// accent; a value that names no color falls back to the foreground, and
/// that to white.
pub open spec fn theme_color(theme: Seq<Seq<char>>, role: ThemeRole) -> AnsiColor {
    let raw = if is_heading(role) && normalized_color(theme[role_index(role)]).len() == 0 {
        theme[role_index(ThemeRole::Accent)]
    } else {
        theme[role_index(role)]
    };
    match color_of(raw) {
        Some(c) => c,
        None => match color_of(theme[role_index(ThemeRole::Foreground)]) {
            Some(c) => c,
            None => AnsiColor::White,
        },
    }
}

pub fn theme_color_in(theme: &Theme, role: ThemeRole) -> (c: AnsiColor)
    ensures
        c == theme_color(theme@, role),
{
    let heading = match role {
        ThemeRole::Heading1 | ThemeRole::Heading2 | ThemeRole::Heading3 | ThemeRole::Heading4
        | ThemeRole::Heading5 | ThemeRole::Heading6 => true,
        _ => false,
    };
    let raw = if heading && normalized_chars(theme.value_for(role)).len() == 0 {
        theme.value_for(ThemeRole::Accent)
    } else {
        theme.value_for(role)
    };
    if let Some(color) = parse_ansi_color_name(raw) {
        return color;
    }
    if let Some(color) = parse_ansi_color_name(theme.value_for(ThemeRole::Foreground)) {
        return color;
    }
    AnsiColor::White
}

/// The first problem with required role `field` holding `value`: empty, or no color.
pub open spec fn required_problem(field: Seq<char>, value: Seq<char>) -> Option<ThemeErrorView> {
    let norm = normalized_color(value);
    if norm.len() == 0 {
        Some(ThemeErrorView::EmptyRequiredField(field))
    } else if color_of(norm) is None {
        Some(ThemeErrorView::InvalidColorName { field, value })
    } else {
        None
    }
}

/// The problem with heading role `field` holding `value`: a non-empty value
/// that names no color.
pub open spec fn heading_problem(field: Seq<char>, value: Seq<char>) -> Option<ThemeErrorView> {
    let norm = normalized_color(value);
    if norm.len() == 0 {
        None
    } else if color_of(norm) is None {
        Some(ThemeErrorView::InvalidColorName { field, value })
    } else {
        None
    }
}

/// The first problem with roles `i..` of a theme: the nine required roles
/// must name colors; headings may be empty.
pub open spec fn theme_problem_from(theme: Seq<Seq<char>>, i: int) -> Option<ThemeErrorView>
    decreases 15 - i,
{
    if i >= 15 || i < 0 {
        None
    } else {
        let field = key_of_role(role_at(i));
        let p = if i < 9 {
            required_problem(field, theme[i])
        } else {
            heading_problem(field, theme[i])
        };
        if p is Some {
            p
        } else {
            theme_problem_from(theme, i + 1)
        }
    }
}

/// The first problem with a theme's colors, in role order.
pub open spec fn theme_problem(theme: Seq<Seq<char>>) -> Option<ThemeErrorView> {
    theme_problem_from(theme, 0)
}

/// The problem with role `i` of a theme on its own: required roles (the
/// first nine) must name a color, headings may also be empty.
pub open spec fn role_problem(theme: Seq<Seq<char>>, i: int) -> Option<ThemeErrorView> {
    if i < 9 {
        required_problem(key_of_role(role_at(i)), theme[i])
    } else {
        heading_problem(key_of_role(role_at(i)), theme[i])
    }
}

/// A theme has a problem exactly when one of its roles has one, and the
/// problem reported is that of the first such role in role order: the
/// required roles first, then the headings in order.
pub proof fn lemma_theme_problem_first(theme: Seq<Seq<char>>)
    ensures
        theme_problem(theme) is None <==> forall|i: int| 0 <= i < 15 ==> #[trigger] role_problem(theme, i) is None,
        theme_problem(theme) matches Some(e) ==> exists|k: int|
            0 <= k < 15 && role_problem(theme, k) == Some(e) && forall|j: int|
                0 <= j < k ==> #[trigger] role_problem(theme, j) is None,
{
    lemma_theme_problem_from(theme, 0);
}

proof fn lemma_theme_problem_from(theme: Seq<Seq<char>>, i: int)
    requires
        0 <= i <= 15,
    ensures
        theme_problem_from(theme, i) is None <==> forall|j: int| i <= j < 15 ==> #[trigger] role_problem(theme, j) is None,
        theme_problem_from(theme, i) matches Some(e) ==> exists|k: int|
            i <= k < 15 && role_problem(theme, k) == Some(e) && forall|j: int|
                i <= j < k ==> #[trigger] role_problem(theme, j) is None,
    decreases 15 - i,
{
    if i < 15 {
        lemma_theme_problem_from(theme, i + 1);
        assert(theme_problem_from(theme, i) == if role_problem(theme, i) is Some {
            role_problem(theme, i)
        } else {
            theme_problem_from(theme, i + 1)
        });
        if role_problem(theme, i) is None {
            if let Some(e) = theme_problem_from(theme, i + 1) {
                let k = choose|k: int|
                    i + 1 <= k < 15 && role_problem(theme, k) == Some(e) && forall|j: int|
                        i + 1 <= j < k ==> #[trigger] role_problem(theme, j) is None;
                assert forall|j: int| i <= j < k implies #[trigger] role_problem(theme, j) is None by {
                    if j > i {
                    }
                }
            }
        }
    }
}

fn role_by_index(i: usize) -> (r: ThemeRole)
    requires
        i < 15,
    ensures
        r == role_at(i as int),
        role_index(r) == i,
{
    if i == 0 {
        ThemeRole::Background
    } else if i == 1 {
        ThemeRole::Foreground
    } else if i == 2 {
        ThemeRole::Accent
    } else if i == 3 {
        ThemeRole::Link
    } else if i == 4 {
        ThemeRole::LinkMissing
    } else if i == 5 {
        ThemeRole::CursorLine
    } else if i == 6 {
        ThemeRole::Code
    } else if i == 7 {
        ThemeRole::ListSelectionForeground
    } else if i == 8 {
        ThemeRole::ListSelectionBackground
    } else if i == 9 {
        ThemeRole::Heading1
    } else if i == 10 {
        ThemeRole::Heading2
    } else if i == 11 {
        ThemeRole::Heading3
    } else if i == 12 {
        ThemeRole::Heading4
    } else if i == 13 {
        ThemeRole::Heading5
    } else {
        ThemeRole::Heading6
    }
}

fn role_key(r: ThemeRole) -> (k: &'static str)
    ensures
        k@ == key_of_role(r),
{
    match r {
        ThemeRole::Background => "background",
        ThemeRole::Foreground => "foreground",
        ThemeRole::Accent => "accent",
        ThemeRole::Link => "link",
        ThemeRole::LinkMissing => "link_missing",
        ThemeRole::CursorLine => "cursor_line",
        ThemeRole::Code => "code",
        ThemeRole::ListSelectionForeground => "list_selection_foreground",
        ThemeRole::ListSelectionBackground => "list_selection_background",
        ThemeRole::Heading1 => "heading1",
        ThemeRole::Heading2 => "heading2",
        ThemeRole::Heading3 => "heading3",
        ThemeRole::Heading4 => "heading4",
        ThemeRole::Heading5 => "heading5",
        ThemeRole::Heading6 => "heading6",
    }
}

fn validate_required(field: &str, value: &str) -> (r: Result<(), ThemeError>)
    ensures
        match required_problem(field@, value@) {
            None => r is Ok,
            Some(e) => r matches Err(x) && x@ == e,
        },
{
    let norm = normalize_color_name(value);
    if norm.as_str().is_empty() {
        return Err(ThemeError::EmptyRequiredField(field.to_string()));
    }
    if parse_ansi_color_name(norm.as_str()).is_none() {
        return Err(ThemeError::InvalidColorName { field: field.to_string(), value: value.to_string() });
    }
    Ok(())
}

fn validate_heading(field: &str, value: &str) -> (r: Result<(), ThemeError>)
    ensures
        match heading_problem(field@, value@) {
            None => r is Ok,
            Some(e) => r matches Err(x) && x@ == e,
        },
{
    let norm = normalize_color_name(value);
    if norm.as_str().is_empty() {
        return Ok(());
    }
    if parse_ansi_color_name(norm.as_str()).is_none() {
        return Err(ThemeError::InvalidColorName { field: field.to_string(), value: value.to_string() });
    }
    Ok(())
}

impl Theme {
    pub fn validate_theme_colors(&self) -> (r: Result<(), ThemeError>)
        ensures
            match theme_problem(self@) {
                None => r is Ok,
                Some(e) => r matches Err(x) && x@ == e,
            },
    {
        let ghost t = self@;
        let mut i: usize = 0;
        while i < 15
            invariant
                i <= 15,
                t == self@,
                theme_problem_from(t, i as int) == theme_problem(t),
            decreases 15 - i,
        {
            let role = role_by_index(i);
            let field = role_key(role);
            let value = self.value_for(role);
            let r = if i < 9 {
                validate_required(field, value)
            } else {
                validate_heading(field, value)
            };
            if r.is_err() {
                return r;
            }
            i = i + 1;
        }
        Ok(())
    }
}

/// Merging a `[theme]` table's entries into theme `t`, in order: each entry
/// must be a string for a known role. Gives the theme after the entries
/// taken, and the error that stopped the merge.
pub open spec fn merge_theme_spec(t: Seq<Seq<char>>, entries: Seq<(Seq<char>, ConfigValueView)>) -> (
    Seq<Seq<char>>,
    Option<ThemeErrorView>,
)
    decreases entries.len(),
{
    if entries.len() == 0 {
        (t, None)
    } else {
        let k = entries[0].0;
        match entries[0].1 {
            ConfigValueView::Str(s) => match role_of_key(k) {
                Some(r) => merge_theme_spec(t.update(role_index(r), s), entries.drop_first()),
                None => (t, Some(ThemeErrorView::UnknownThemeKey(k))),
            },
            _ => (t, Some(ThemeErrorView::InvalidType { field: "theme."@ + k, expected: "string"@ })),
        }
    }
}

impl Theme {
    pub fn merge_theme_table(&mut self, theme_table: &[(String, ConfigValue)]) -> (r: Result<(), ThemeError>)
        ensures
            final(self)@ == merge_theme_spec(old(self)@, entries_view(theme_table@)).0,
            match merge_theme_spec(old(self)@, entries_view(theme_table@)).1 {
                None => r is Ok,
                Some(e) => r matches Err(x) && x@ == e,
            },
    {
        let ghost ev = entries_view(theme_table@);
        let ghost target = merge_theme_spec(old(self)@, ev);
        let mut i: usize = 0;
        assert(ev.skip(0) =~= ev);
        while i < theme_table.len()
            invariant
                i <= theme_table@.len(),
                ev == entries_view(theme_table@),
                target == merge_theme_spec(old(self)@, ev),
                merge_theme_spec(self@, ev.skip(i as int)) == target,
            decreases theme_table@.len() - i,
        {
            let (key, value) = (&theme_table[i].0, &theme_table[i].1);
            let ghost rest = ev.skip(i as int);
            assert(rest[0] == (key@, value@));
            assert(rest.drop_first() =~= ev.skip(i + 1));
            match value {
                ConfigValue::Str(raw_value) => {
                    match role_for_key(key.as_str()) {
                        Some(role) => {
                            let v = raw_value.as_str().to_string();
                            self.set_role(role, v);
                        },
                        None => {
                            return Err(ThemeError::UnknownThemeKey(key.as_str().to_string()));
                        },
                    }
                },
                _ => {
                    return Err(ThemeError::InvalidType {
                        field: concat_str("theme.", key.as_str()),
                        expected: "string".to_string(),
                    });
                },
            }
            i = i + 1;
        }
        assert(ev.skip(i as int) =~= Seq::<(Seq<char>, ConfigValueView)>::empty());
        Ok(())
    }
}

#[derive(Clone, Debug, PartialEq, Eq)]
pub struct SpacingConfig {
    pub line_gap_lines: usize,
    pub paragraph_gap_lines: usize,
    pub code_margin: usize,
}

impl Default for SpacingConfig {
    fn default() -> (c: Self)
        ensures
            c == (SpacingConfig { line_gap_lines: 0, paragraph_gap_lines: 0, code_margin: 1 }),
    {
        Self { line_gap_lines: 0, paragraph_gap_lines: 0, code_margin: 1 }
    }
}

#[derive(Clone, Debug, PartialEq, Eq)]
pub struct TypographyConfig {
    pub extra_word_spacing: usize,
    pub extra_letter_spacing: usize,
}

impl Default for TypographyConfig {
    fn default() -> (c: Self)
        ensures
            c == (TypographyConfig { extra_word_spacing: 0, extra_letter_spacing: 0 }),
    {
        Self { extra_word_spacing: 0, extra_letter_spacing: 0 }
    }
}

#[derive(Clone, Copy, Debug, PartialEq, Eq)]
pub enum CursorStyleConfig {
    Block,
    Line,
    Underline,
}

#[derive(Clone, Debug, PartialEq, Eq)]
pub struct CursorConfig {
    pub style: CursorStyleConfig,
    pub blink: bool,
}

impl Default for CursorConfig {
    fn default() -> (c: Self)
        ensures
            c == (CursorConfig { style: CursorStyleConfig::Line, blink: true }),
    {
        Self { style: CursorStyleConfig::Line, blink: true }
    }
}

#[derive(Clone, Debug, PartialEq, Eq)]
pub struct EditorConfig {
    pub tab_width: usize,
    pub hard_tabs: bool,
    pub auto_wrap: bool,
    pub show_invisibles: bool,
}

impl Default for EditorConfig {
    fn default() -> (c: Self)
        ensures
            c == (EditorConfig { tab_width: 4, hard_tabs: false, auto_wrap: true, show_invisibles: false }),
    {
        Self { tab_width: 4, hard_tabs: false, auto_wrap: true, show_invisibles: false }
    }
}

#[derive(Clone, Debug, PartialEq, Eq)]
pub struct UiConfig {
    pub status_details_default: bool,
    pub start_menu_title: String,
}

/// Model of the UI settings.
#[verifier::ext_equal]
pub struct UiView {
    pub status_details_default: bool,
    pub start_menu_title: Seq<char>,
}

impl View for UiConfig {
    type V = UiView;

    open spec fn view(&self) -> UiView {
        UiView {
            status_details_default: self.status_details_default,
            start_menu_title: self.start_menu_title@,
        }
    }
}

impl Default for UiConfig {
    fn default() -> (c: Self)
        ensures
            c@ == (UiView { status_details_default: false, start_menu_title: "ANSI-Shadow"@ }),
    {
        Self { status_details_default: false, start_menu_title: "ANSI-Shadow".to_string() }
    }
}

/// Key remaps: action name and binding text, sorted by action name, each
/// name once.
#[derive(Clone, Debug, PartialEq, Eq)]
pub struct KeymapConfig {
    pub bindings: Vec<(String, String)>,
}

pub open spec fn bindings_view(v: Seq<(String, String)>) -> Seq<(Seq<char>, Seq<char>)> {
    Seq::new(v.len(), |i: int| (v[i].0@, v[i].1@))
}

impl View for KeymapConfig {
    type V = Seq<(Seq<char>, Seq<char>)>;

    open spec fn view(&self) -> Seq<(Seq<char>, Seq<char>)> {
        bindings_view(self.bindings@)
    }
}

impl Default for KeymapConfig {
    fn default() -> (c: Self)
        ensures
            c@.len() == 0,
            keys_sorted(c@),
    {
        Self { bindings: Vec::new() }
    }
}

/// Resolved filesystem paths derived from `[paths]` in config.
#[derive(Clone, Debug, PartialEq, Eq)]
pub struct PathsConfig {
    /// Directory scanned for `.md` / `.txt` / `.toml` documents to open from the Writing folder UI.
    pub writing_folder: PathBuf,
}

#[derive(Clone, Debug, PartialEq, Eq)]
pub struct AppConfig {
    pub theme: Theme,
    pub spacing: SpacingConfig,
    pub typography: TypographyConfig,
    pub cursor: CursorConfig,
    pub editor: EditorConfig,
    pub ui: UiConfig,
    pub keymap: KeymapConfig,
    pub paths: PathsConfig,
}

/// Model of the settings that the configuration text decides, paths aside.
#[verifier::ext_equal]
pub struct AppView {
    pub theme: Seq<Seq<char>>,
    pub spacing: SpacingConfig,
    pub typography: TypographyConfig,
    pub cursor: CursorConfig,
    pub editor: EditorConfig,
    pub ui: UiView,
    pub keymap: Seq<(Seq<char>, Seq<char>)>,
}

impl View for AppConfig {
    type V = AppView;

    open spec fn view(&self) -> AppView {
        AppView {
            theme: self.theme@,
            spacing: self.spacing,
            typography: self.typography,
            cursor: self.cursor,
            editor: self.editor,
            ui: self.ui@,
            keymap: self.keymap@,
        }
    }
}

/// Settings before any configuration is read.
pub open spec fn default_app() -> AppView {
    AppView {
        theme: default_theme(),
        spacing: SpacingConfig { line_gap_lines: 0, paragraph_gap_lines: 0, code_margin: 1 },
        typography: TypographyConfig { extra_word_spacing: 0, extra_letter_spacing: 0 },
        cursor: CursorConfig { style: CursorStyleConfig::Line, blink: true },
        editor: EditorConfig { tab_width: 4, hard_tabs: false, auto_wrap: true, show_invisibles: false },
        ui: UiView { status_details_default: false, start_menu_title: "ANSI-Shadow"@ },
        keymap: Seq::empty(),
    }
}

/// How `[paths].writing_folder` (or its absence) places the writing folder.
#[derive(Clone, Debug, PartialEq, Eq)]
pub enum FolderChoice {
    /// `Writing` under the home directory (no value, or a blank one).
    Default,
    /// The home directory itself (`~`).
    Home,
    /// A path under the home directory (`~/rest`).
    UnderHome(String),
    /// The value as written, trimmed.
    Given(String),
}

/// Model of a folder choice.
pub enum FolderChoiceView {
    Default,
    Home,
    UnderHome(Seq<char>),
    Given(Seq<char>),
}

impl View for FolderChoice {
    type V = FolderChoiceView;

    open spec fn view(&self) -> FolderChoiceView {
        match self {
            FolderChoice::Default => FolderChoiceView::Default,
            FolderChoice::Home => FolderChoiceView::Home,
            FolderChoice::UnderHome(r) => FolderChoiceView::UnderHome(r@),
            FolderChoice::Given(t) => FolderChoiceView::Given(t@),
        }
    }
}

/// The folder choice for the configured value `raw`.
pub open spec fn folder_choice(raw: Option<Seq<char>>) -> FolderChoiceView {
    match raw {
        None => FolderChoiceView::Default,
        Some(s) => {
            let t = trimmed(s);
            if t.len() == 0 {
                FolderChoiceView::Default
            } else if t.len() >= 2 && t[0] == '~' && t[1] == '/' {
                FolderChoiceView::UnderHome(t.skip(2))
            } else if t == seq!['~'] {
                FolderChoiceView::Home
            } else {
                FolderChoiceView::Given(t)
            }
        },
    }
}

/// Where the configured value `raw_config` puts the writing folder: empty or
/// absent means the default `~/Writing`; `~/` and `~` expand to the home
/// directory.
pub fn writing_folder_choice(raw_config: Option<&str>) -> (c: FolderChoice)
    ensures
        c@ == folder_choice(match raw_config {
            Some(s) => Some(s@),
            None => None,
        }),
{
    let s = match raw_config {
        None => return FolderChoice::Default,
        Some(s) => s,
    };
    let v = text_chars(s);
    let t = trim_chars(&v);
    if t.len() == 0 {
        return FolderChoice::Default;
    }
    if t.len() >= 2 && t[0] == '~' && t[1] == '/' {
        let mut rest: Vec<char> = Vec::new();
        let mut i: usize = 2;
        while i < t.len()
            invariant
                2 <= i <= t@.len(),
                rest@ == t@.subrange(2, i as int),
            decreases t@.len() - i,
        {
            rest.push(t[i]);
            assert(rest@ =~= t@.subrange(2, i + 1));
            i = i + 1;
        }
        assert(rest@ =~= t@.skip(2));
        return FolderChoice::UnderHome(string_of_chars(&rest));
    }
    if t.len() == 1 && t[0] == '~' {
        assert(t@ =~= seq!['~']);
        return FolderChoice::Home;
    }
    assert(t@ != seq!['~']);
    FolderChoice::Given(string_of_chars(&t))
}

/// The path that `PathBuf::from` makes of the text `s`.
pub uninterp spec fn path_from(s: Seq<char>) -> PathBuf;

/// The path that `Path::join` makes of `base` and the text `rest`.
pub uninterp spec fn joined_path(base: PathBuf, rest: Seq<char>) -> PathBuf;

/// `PathBuf::from`: the path spelled `s`, named `path_from` of its text.
#[verifier::external_body]
pub(crate) fn path_of(s: &str) -> (p: PathBuf)
    ensures
        p == path_from(s@),
{
    PathBuf::from(s)
}

/// `Path::join`: `base` with `rest` appended as a component, named
/// `joined_path` of the two.
#[verifier::external_body]
pub(crate) fn path_join(base: &PathBuf, rest: &str) -> (p: PathBuf)
    ensures
        p == joined_path(*base, rest@),
{
    base.join(rest)
}

/// The path `rest` under the directory `base`.
pub open spec fn path_under_spec(base: Seq<char>, rest: Seq<char>) -> PathBuf {
    joined_path(path_from(base), rest)
}

/// The path `rest` under the directory `base`.
pub(crate) fn path_under(base: &str, rest: &str) -> (p: PathBuf)
    ensures
        p == path_under_spec(base@, rest@),
{
    path_join(&path_of(base), rest)
}

/// The writing folder that choice `choice` names, with `home` the home
/// directory when it is known: `Writing`, the home directory itself, or
/// the given path under it (under `.` when the home is unknown), or the
/// given path as written.
pub open spec fn folder_path(choice: FolderChoiceView, home: Option<Seq<char>>) -> PathBuf {
    match choice {
        FolderChoiceView::Default => match home {
            Some(h) => path_under_spec(h, "Writing"@),
            None => path_from("Writing"@),
        },
        FolderChoiceView::Home => match home {
            Some(h) => path_from(h),
            None => path_from("."@),
        },
        FolderChoiceView::UnderHome(rest) => match home {
            Some(h) => path_under_spec(h, rest),
            None => path_under_spec("."@, rest),
        },
        FolderChoiceView::Given(t) => path_from(t),
    }
}

/// The text of an optional string.
pub open spec fn opt_str(o: Option<&str>) -> Option<Seq<char>> {
    match o {
        Some(s) => Some(s@),
        None => None,
    }
}

/// The writing folder that `choice` names, with `home` the home directory
/// when it is known.
pub fn writing_folder_path(choice: &FolderChoice, home: Option<&str>) -> (p: PathBuf)
    ensures
        p == folder_path(choice@, opt_str(home)),
{
    match choice {
        FolderChoice::Default => match home {
            Some(h) => path_under(h, "Writing"),
            None => path_of("Writing"),
        },
        FolderChoice::Home => match home {
            Some(h) => path_of(h),
            None => path_of("."),
        },
        FolderChoice::UnderHome(rest) => match home {
            Some(h) => path_under(h, rest.as_str()),
            None => path_under(".", rest.as_str()),
        },
        FolderChoice::Given(t) => path_of(t.as_str()),
    }
}

/// Applies optional `paths.writing_folder` string: empty ⇒ default `~/Writing`, supports `~/` tilde expansion.
pub fn resolve_writing_folder_from_config_value(raw_config: Option<&str>, home: Option<&str>) -> (p:
    PathBuf)
    ensures
        p == folder_path(folder_choice(opt_str(raw_config)), opt_str(home)),
{
    let choice = writing_folder_choice(raw_config);
    writing_folder_path(&choice, home)
}

impl PathsConfig {
    /// Paths before any configuration is read, with `home` the home directory.
    pub fn with_home(home: Option<&str>) -> (p: PathsConfig)
        ensures
            p.writing_folder == folder_path(FolderChoiceView::Default, opt_str(home)),
    {
        PathsConfig { writing_folder: writing_folder_path(&FolderChoice::Default, home) }
    }
}

impl AppConfig {
    /// Settings before any configuration is read, with `home` the home directory.
    pub fn with_home(home: Option<&str>) -> (app: AppConfig)
        ensures
            app@ == default_app(),
            app.paths.writing_folder == folder_path(FolderChoiceView::Default, opt_str(home)),
    {
        let app = AppConfig {
            theme: Theme::default(),
            spacing: SpacingConfig::default(),
            typography: TypographyConfig::default(),
            cursor: CursorConfig::default(),
            editor: EditorConfig::default(),
            ui: UiConfig::default(),
            keymap: KeymapConfig::default(),
            paths: PathsConfig::with_home(home),
        };
        assert(app@.keymap =~= Seq::<(Seq<char>, Seq<char>)>::empty());
        assert(app@ =~= default_app());
        app
    }
}

/// An integer setting `field` between `min` and `max`.
pub open spec fn usize_in_range(field: Seq<char>, v: ConfigValueView, min: usize, max: usize) -> Result<
    usize,
    ThemeErrorView,
> {
    match v {
        ConfigValueView::Integer(raw) => if raw < min || raw > max {
            Err(
                ThemeErrorView::InvalidRange {
                    field,
                    min,
                    max,
                    value: (if raw < 0 {
                        0
                    } else {
                        raw
                    }) as usize,
                },
            )
        } else {
            Ok(raw as usize)
        },
        _ => Err(ThemeErrorView::InvalidType { field, expected: "integer"@ }),
    }
}

/// A boolean setting `field`.
pub open spec fn bool_setting(field: Seq<char>, v: ConfigValueView) -> Result<bool, ThemeErrorView> {
    match v {
        ConfigValueView::Boolean(b) => Ok(b),
        _ => Err(ThemeErrorView::InvalidType { field, expected: "boolean"@ }),
    }
}

/// A string setting `field`.
pub open spec fn string_setting(field: Seq<char>, v: ConfigValueView) -> Result<Seq<char>, ThemeErrorView> {
    match v {
        ConfigValueView::Str(s) => Ok(s),
        _ => Err(ThemeErrorView::InvalidType { field, expected: "string"@ }),
    }
}

fn parse_usize_in_range(field: &str, value: &ConfigValue, min: usize, max: usize) -> (r: Result<
    usize,
    ThemeError,
>)
    requires
        min <= max <= 0x7fff_ffff,
    ensures
        match usize_in_range(field@, value@, min, max) {
            Ok(x) => r == Ok::<usize, ThemeError>(x),
            Err(e) => r matches Err(x) && x@ == e,
        },
{
    match value {
        ConfigValue::Integer(raw) => {
            let raw: i64 = *raw;
            if raw < min as i64 || raw > max as i64 {
                let shown: i64 = if raw < 0 {
                    0
                } else {
                    raw
                };
                Err(ThemeError::InvalidRange { field: field.to_string(), min, max, value: shown as usize })
            } else {
                Ok(raw as usize)
            }
        },
        _ => Err(ThemeError::InvalidType { field: field.to_string(), expected: "integer".to_string() }),
    }
}

fn parse_bool(field: &str, value: &ConfigValue) -> (r: Result<bool, ThemeError>)
    ensures
        match bool_setting(field@, value@) {
            Ok(b) => r == Ok::<bool, ThemeError>(b),
            Err(e) => r matches Err(x) && x@ == e,
        },
{
    match value {
        ConfigValue::Boolean(b) => Ok(*b),
        _ => Err(ThemeError::InvalidType { field: field.to_string(), expected: "boolean".to_string() }),
    }
}

fn parse_string(field: &str, value: &ConfigValue) -> (r: Result<String, ThemeError>)
    ensures
        match string_setting(field@, value@) {
            Ok(s) => r matches Ok(x) && x@ == s,
            Err(e) => r matches Err(x) && x@ == e,
        },
{
    match value {
        ConfigValue::Str(s) => Ok(s.as_str().to_string()),
        _ => Err(ThemeError::InvalidType { field: field.to_string(), expected: "string".to_string() }),
    }
}

/// Merging a `[spacing]` table: the settings after the entries taken, and
/// the error that stopped the merge.
pub open spec fn merge_spacing_spec(sp: SpacingConfig, entries: Seq<(Seq<char>, ConfigValueView)>) -> (
    SpacingConfig,
    Option<ThemeErrorView>,
)
    decreases entries.len(),
{
    if entries.len() == 0 {
        (sp, None)
    } else {
        let k = entries[0].0;
        let v = entries[0].1;
        let rest = entries.drop_first();
        if k == "line_gap_lines"@ {
            match usize_in_range("spacing.line_gap_lines"@, v, 0, 8) {
                Ok(x) => merge_spacing_spec(SpacingConfig { line_gap_lines: x, ..sp }, rest),
                Err(e) => (sp, Some(e)),
            }
        } else if k == "paragraph_gap_lines"@ {
            match usize_in_range("spacing.paragraph_gap_lines"@, v, 0, 8) {
                Ok(x) => merge_spacing_spec(SpacingConfig { paragraph_gap_lines: x, ..sp }, rest),
                Err(e) => (sp, Some(e)),
            }
        } else if k == "code_margin"@ {
            match usize_in_range("spacing.code_margin"@, v, 0, 12) {
                Ok(x) => merge_spacing_spec(SpacingConfig { code_margin: x, ..sp }, rest),
                Err(e) => (sp, Some(e)),
            }
        } else {
            (sp, Some(ThemeErrorView::UnknownThemeKey("spacing."@ + k)))
        }
    }
}

fn merge_spacing_table(spacing: &mut SpacingConfig, table: &[(String, ConfigValue)]) -> (r: Result<
    (),
    ThemeError,
>)
    ensures
        *final(spacing) == merge_spacing_spec(*old(spacing), entries_view(table@)).0,
        match merge_spacing_spec(*old(spacing), entries_view(table@)).1 {
            None => r is Ok,
            Some(e) => r matches Err(x) && x@ == e,
        },
{
    let ghost ev = entries_view(table@);
    let ghost target = merge_spacing_spec(*old(spacing), ev);
    let mut i: usize = 0;
    assert(ev.skip(0) =~= ev);
    while i < table.len()
        invariant
            i <= table@.len(),
            ev == entries_view(table@),
            target == merge_spacing_spec(*old(spacing), ev),
            merge_spacing_spec(*spacing, ev.skip(i as int)) == target,
        decreases table@.len() - i,
    {
        let key = table[i].0.as_str();
        let value = &table[i].1;
        let ghost rest = ev.skip(i as int);
        assert(rest[0] == (key@, value@));
        assert(rest.drop_first() =~= ev.skip(i + 1));
        let k = text_chars(key);
        if chars_are(&k, "line_gap_lines") {
            spacing.line_gap_lines = parse_usize_in_range("spacing.line_gap_lines", value, 0, 8)?;
        } else if chars_are(&k, "paragraph_gap_lines") {
            spacing.paragraph_gap_lines = parse_usize_in_range("spacing.paragraph_gap_lines", value, 0, 8)?;
        } else if chars_are(&k, "code_margin") {
            spacing.code_margin = parse_usize_in_range("spacing.code_margin", value, 0, 12)?;
        } else {
            return Err(ThemeError::UnknownThemeKey(concat_str("spacing.", key)));
        }
        i = i + 1;
    }
    assert(ev.skip(i as int) =~= Seq::<(Seq<char>, ConfigValueView)>::empty());
    Ok(())
}

/// Merging a `[typography]` table.
pub open spec fn merge_typography_spec(ty: TypographyConfig, entries: Seq<(Seq<char>, ConfigValueView)>) -> (
    TypographyConfig,
    Option<ThemeErrorView>,
)
    decreases entries.len(),
{
    if entries.len() == 0 {
        (ty, None)
    } else {
        let k = entries[0].0;
        let v = entries[0].1;
        let rest = entries.drop_first();
        if k == "extra_word_spacing"@ {
            match usize_in_range("typography.extra_word_spacing"@, v, 0, 4) {
                Ok(x) => merge_typography_spec(TypographyConfig { extra_word_spacing: x, ..ty }, rest),
                Err(e) => (ty, Some(e)),
            }
        } else if k == "extra_letter_spacing"@ {
            match usize_in_range("typography.extra_letter_spacing"@, v, 0, 2) {
                Ok(x) => merge_typography_spec(TypographyConfig { extra_letter_spacing: x, ..ty }, rest),
                Err(e) => (ty, Some(e)),
            }
        } else {
            (ty, Some(ThemeErrorView::UnknownThemeKey("typography."@ + k)))
        }
    }
}

fn merge_typography_table(typography: &mut TypographyConfig, table: &[(String, ConfigValue)]) -> (r:
    Result<(), ThemeError>)
    ensures
        *final(typography) == merge_typography_spec(*old(typography), entries_view(table@)).0,
        match merge_typography_spec(*old(typography), entries_view(table@)).1 {
            None => r is Ok,
            Some(e) => r matches Err(x) && x@ == e,
        },
{
    let ghost ev = entries_view(table@);
    let ghost target = merge_typography_spec(*old(typography), ev);
    let mut i: usize = 0;
    assert(ev.skip(0) =~= ev);
    while i < table.len()
        invariant
            i <= table@.len(),
            ev == entries_view(table@),
            target == merge_typography_spec(*old(typography), ev),
            merge_typography_spec(*typography, ev.skip(i as int)) == target,
        decreases table@.len() - i,
    {
        let key = table[i].0.as_str();
        let value = &table[i].1;
        let ghost rest = ev.skip(i as int);
        assert(rest[0] == (key@, value@));
        assert(rest.drop_first() =~= ev.skip(i + 1));
        let k = text_chars(key);
        if chars_are(&k, "extra_word_spacing") {
            typography.extra_word_spacing = parse_usize_in_range("typography.extra_word_spacing", value, 0, 4)?;
        } else if chars_are(&k, "extra_letter_spacing") {
            typography.extra_letter_spacing = parse_usize_in_range("typography.extra_letter_spacing", value, 0, 2)?;
        } else {
            return Err(ThemeError::UnknownThemeKey(concat_str("typography.", key)));
        }
        i = i + 1;
    }
    assert(ev.skip(i as int) =~= Seq::<(Seq<char>, ConfigValueView)>::empty());
    Ok(())
}

/// A cursor style name trimmed and in ASCII lower case.
pub open spec fn cursor_style_name(raw: Seq<char>) -> Seq<char> {
    ascii_lowered(trimmed(raw))
}

/// The cursor style `raw` names.
pub open spec fn cursor_style_of(raw: Seq<char>) -> Option<CursorStyleConfig> {
    let n = cursor_style_name(raw);
    if n == "block"@ {
        Some(CursorStyleConfig::Block)
    } else if n == "line"@ {
        Some(CursorStyleConfig::Line)
    } else if n == "underline"@ {
        Some(CursorStyleConfig::Underline)
    } else {
        None
    }
}

/// Merging a `[cursor]` table.
pub open spec fn merge_cursor_spec(c: CursorConfig, entries: Seq<(Seq<char>, ConfigValueView)>) -> (
    CursorConfig,
    Option<ThemeErrorView>,
)
    decreases entries.len(),
{
    if entries.len() == 0 {
        (c, None)
    } else {
        let k = entries[0].0;
        let v = entries[0].1;
        let rest = entries.drop_first();
        if k == "style"@ {
            match string_setting("cursor.style"@, v) {
                Ok(raw) => match cursor_style_of(raw) {
                    Some(st) => merge_cursor_spec(CursorConfig { style: st, ..c }, rest),
                    None => (
                        c,
                        Some(
                            ThemeErrorView::InvalidEnum {
                                field: "cursor.style"@,
                                value: raw,
                                expected: seq!["block"@, "line"@, "underline"@],
                            },
                        ),
                    ),
                },
                Err(e) => (c, Some(e)),
            }
        } else if k == "blink"@ {
            match bool_setting("cursor.blink"@, v) {
                Ok(b) => merge_cursor_spec(CursorConfig { blink: b, ..c }, rest),
                Err(e) => (c, Some(e)),
            }
        } else {
            (c, Some(ThemeErrorView::UnknownThemeKey("cursor."@ + k)))
        }
    }
}

fn normalize_cursor_style(raw: &str) -> (r: Vec<char>)
    ensures
        r@ == cursor_style_name(raw@),
{
    let v = text_chars(raw);
    let t = trim_chars(&v);
    lower_chars(&t)
}

fn merge_cursor_table(cursor: &mut CursorConfig, table: &[(String, ConfigValue)]) -> (r: Result<(), ThemeError>)
    ensures
        *final(cursor) == merge_cursor_spec(*old(cursor), entries_view(table@)).0,
        match merge_cursor_spec(*old(cursor), entries_view(table@)).1 {
            None => r is Ok,
            Some(e) => r matches Err(x) && x@ == e,
        },
{
    let ghost ev = entries_view(table@);
    let ghost target = merge_cursor_spec(*old(cursor), ev);
    let mut i: usize = 0;
    assert(ev.skip(0) =~= ev);
    while i < table.len()
        invariant
            i <= table@.len(),
            ev == entries_view(table@),
            target == merge_cursor_spec(*old(cursor), ev),
            merge_cursor_spec(*cursor, ev.skip(i as int)) == target,
        decreases table@.len() - i,
    {
        let key = table[i].0.as_str();
        let value = &table[i].1;
        let ghost rest = ev.skip(i as int);
        assert(rest[0] == (key@, value@));
        assert(rest.drop_first() =~= ev.skip(i + 1));
        let k = text_chars(key);
        if chars_are(&k, "style") {
            let raw = parse_string("cursor.style", value)?;
            let n = normalize_cursor_style(raw.as_str());
            if chars_are(&n, "block") {
                cursor.style = CursorStyleConfig::Block;
            } else if chars_are(&n, "line") {
                cursor.style = CursorStyleConfig::Line;
            } else if chars_are(&n, "underline") {
                cursor.style = CursorStyleConfig::Underline;
            } else {
                let expected = vec!["block", "line", "underline"];
                assert(strs_view(expected@) =~= seq!["block"@, "line"@, "underline"@]);
                return Err(ThemeError::InvalidEnum { field: "cursor.style".to_string(), value: raw, expected });
            }
        } else if chars_are(&k, "blink") {
            cursor.blink = parse_bool("cursor.blink", value)?;
        } else {
            return Err(ThemeError::UnknownThemeKey(concat_str("cursor.", key)));
        }
        i = i + 1;
    }
    assert(ev.skip(i as int) =~= Seq::<(Seq<char>, ConfigValueView)>::empty());
    Ok(())
}

/// Merging an `[editor]` table.
pub open spec fn merge_editor_spec(ed: EditorConfig, entries: Seq<(Seq<char>, ConfigValueView)>) -> (
    EditorConfig,
    Option<ThemeErrorView>,
)
    decreases entries.len(),
{
    if entries.len() == 0 {
        (ed, None)
    } else {
        let k = entries[0].0;
        let v = entries[0].1;
        let rest = entries.drop_first();
        if k == "tab_width"@ {
            match usize_in_range("editor.tab_width"@, v, 1, 12) {
                Ok(x) => merge_editor_spec(EditorConfig { tab_width: x, ..ed }, rest),
                Err(e) => (ed, Some(e)),
            }
        } else if k == "hard_tabs"@ {
            match bool_setting("editor.hard_tabs"@, v) {
                Ok(b) => merge_editor_spec(EditorConfig { hard_tabs: b, ..ed }, rest),
                Err(e) => (ed, Some(e)),
            }
        } else if k == "auto_wrap"@ {
            match bool_setting("editor.auto_wrap"@, v) {
                Ok(b) => merge_editor_spec(EditorConfig { auto_wrap: b, ..ed }, rest),
                Err(e) => (ed, Some(e)),
            }
        } else if k == "show_invisibles"@ {
            match bool_setting("editor.show_invisibles"@, v) {
                Ok(b) => merge_editor_spec(EditorConfig { show_invisibles: b, ..ed }, rest),
                Err(e) => (ed, Some(e)),
            }
        } else {
            (ed, Some(ThemeErrorView::UnknownThemeKey("editor."@ + k)))
        }
    }
}

fn merge_editor_table(editor: &mut EditorConfig, table: &[(String, ConfigValue)]) -> (r: Result<(), ThemeError>)
    ensures
        *final(editor) == merge_editor_spec(*old(editor), entries_view(table@)).0,
        match merge_editor_spec(*old(editor), entries_view(table@)).1 {
            None => r is Ok,
            Some(e) => r matches Err(x) && x@ == e,
        },
{
    let ghost ev = entries_view(table@);
    let ghost target = merge_editor_spec(*old(editor), ev);
    let mut i: usize = 0;
    assert(ev.skip(0) =~= ev);
    while i < table.len()
        invariant
            i <= table@.len(),
            ev == entries_view(table@),
            target == merge_editor_spec(*old(editor), ev),
            merge_editor_spec(*editor, ev.skip(i as int)) == target,
        decreases table@.len() - i,
    {
        let key = table[i].0.as_str();
        let value = &table[i].1;
        let ghost rest = ev.skip(i as int);
        assert(rest[0] == (key@, value@));
        assert(rest.drop_first() =~= ev.skip(i + 1));
        let k = text_chars(key);
        if chars_are(&k, "tab_width") {
            editor.tab_width = parse_usize_in_range("editor.tab_width", value, 1, 12)?;
        } else if chars_are(&k, "hard_tabs") {
            editor.hard_tabs = parse_bool("editor.hard_tabs", value)?;
        } else if chars_are(&k, "auto_wrap") {
            editor.auto_wrap = parse_bool("editor.auto_wrap", value)?;
        } else if chars_are(&k, "show_invisibles") {
            editor.show_invisibles = parse_bool("editor.show_invisibles", value)?;
        } else {
            return Err(ThemeError::UnknownThemeKey(concat_str("editor.", key)));
        }
        i = i + 1;
    }
    assert(ev.skip(i as int) =~= Seq::<(Seq<char>, ConfigValueView)>::empty());
    Ok(())
}

/// Merging a `[ui]` table.
pub open spec fn merge_ui_spec(ui: UiView, entries: Seq<(Seq<char>, ConfigValueView)>) -> (
    UiView,
    Option<ThemeErrorView>,
)
    decreases entries.len(),
{
    if entries.len() == 0 {
        (ui, None)
    } else {
        let k = entries[0].0;
        let v = entries[0].1;
        let rest = entries.drop_first();
        if k == "status_details_default"@ {
            match bool_setting("ui.status_details_default"@, v) {
                Ok(b) => merge_ui_spec(UiView { status_details_default: b, ..ui }, rest),
                Err(e) => (ui, Some(e)),
            }
        } else if k == "start_menu_title"@ {
            match string_setting("ui.start_menu_title"@, v) {
                Ok(t) => merge_ui_spec(UiView { start_menu_title: trimmed(t), ..ui }, rest),
                Err(e) => (ui, Some(e)),
            }
        } else {
            (ui, Some(ThemeErrorView::UnknownThemeKey("ui."@ + k)))
        }
    }
}

fn merge_ui_table(ui: &mut UiConfig, table: &[(String, ConfigValue)]) -> (r: Result<(), ThemeError>)
    ensures
        final(ui)@ == merge_ui_spec(old(ui)@, entries_view(table@)).0,
        match merge_ui_spec(old(ui)@, entries_view(table@)).1 {
            None => r is Ok,
            Some(e) => r matches Err(x) && x@ == e,
        },
{
    let ghost ev = entries_view(table@);
    let ghost target = merge_ui_spec(old(ui)@, ev);
    let mut i: usize = 0;
    assert(ev.skip(0) =~= ev);
    while i < table.len()
        invariant
            i <= table@.len(),
            ev == entries_view(table@),
            target == merge_ui_spec(old(ui)@, ev),
            merge_ui_spec(ui@, ev.skip(i as int)) == target,
        decreases table@.len() - i,
    {
        let key = table[i].0.as_str();
        let value = &table[i].1;
        let ghost rest = ev.skip(i as int);
        assert(rest[0] == (key@, value@));
        assert(rest.drop_first() =~= ev.skip(i + 1));
        let k = text_chars(key);
        if chars_are(&k, "status_details_default") {
            ui.status_details_default = parse_bool("ui.status_details_default", value)?;
        } else if chars_are(&k, "start_menu_title") {
            let raw = parse_string("ui.start_menu_title", value)?;
            let chars = text_chars(raw.as_str());
            let t = trim_chars(&chars);
            ui.start_menu_title = string_of_chars(&t);
        } else {
            return Err(ThemeError::UnknownThemeKey(concat_str("ui.", key)));
        }
        i = i + 1;
    }
    assert(ev.skip(i as int) =~= Seq::<(Seq<char>, ConfigValueView)>::empty());
    Ok(())
}

/// `a` comes before `b` in code point order (the order of their UTF-8 bytes).
pub open spec fn chars_lt(a: Seq<char>, b: Seq<char>) -> bool
    decreases a.len(),
{
    if b.len() == 0 {
        false
    } else if a.len() == 0 {
        true
    } else if a[0] != b[0] {
        (a[0] as u32) < (b[0] as u32)
    } else {
        chars_lt(a.drop_first(), b.drop_first())
    }
}

/// Index predicate: entry `j` of `m` does not come before key `k`.
pub open spec fn not_before<V>(m: Seq<(Seq<char>, V)>, k: Seq<char>) -> spec_fn(int) -> bool {
    |j: int| !chars_lt(m[j].0, k)
}

/// `m`, kept in key order with each key once, with `k` set to `v`: the
/// entry for `k` is replaced, or a new one goes before the first greater key.
pub open spec fn sorted_insert<V>(m: Seq<(Seq<char>, V)>, k: Seq<char>, v: V) -> Seq<(Seq<char>, V)> {
    match first_index(m.len() as int, not_before(m, k)) {
        Some(j) => if m[j].0 == k {
            m.update(j, (k, v))
        } else {
            m.insert(j, (k, v))
        },
        None => m.push((k, v)),
    }
}

/// The keys of `m` strictly increase in code point order, so each key occurs once.
pub open spec fn keys_sorted<V>(m: Seq<(Seq<char>, V)>) -> bool {
    forall|i: int, j: int| 0 <= i < j < m.len() ==> chars_lt(#[trigger] m[i].0, #[trigger] m[j].0)
}

proof fn lemma_char_code_injective(x: char, y: char)
    requires
        x != y,
    ensures
        x as u32 != y as u32,
{
}

proof fn lemma_chars_lt_trans(a: Seq<char>, b: Seq<char>, c: Seq<char>)
    requires
        chars_lt(a, b),
        chars_lt(b, c),
    ensures
        chars_lt(a, c),
    decreases a.len(),
{
    if a.len() > 0 && b.len() > 0 && c.len() > 0 && a[0] == b[0] && b[0] == c[0] {
        lemma_chars_lt_trans(a.drop_first(), b.drop_first(), c.drop_first());
    }
}

proof fn lemma_chars_lt_total(a: Seq<char>, b: Seq<char>)
    requires
        a != b,
    ensures
        chars_lt(a, b) || chars_lt(b, a),
    decreases a.len(),
{
    if a.len() > 0 && b.len() > 0 && a[0] == b[0] {
        if a.drop_first() == b.drop_first() {
            assert(a =~= seq![a[0]] + a.drop_first());
            assert(b =~= seq![b[0]] + b.drop_first());
        }
        lemma_chars_lt_total(a.drop_first(), b.drop_first());
    } else if a.len() > 0 && b.len() > 0 {
        lemma_char_code_injective(a[0], b[0]);
    } else if a.len() == 0 && b.len() == 0 {
        assert(a =~= b);
    }
}

/// Setting a key in a sorted key list keeps it sorted, each key once.
pub proof fn lemma_sorted_insert_keeps_order<V>(m: Seq<(Seq<char>, V)>, k: Seq<char>, v: V)
    requires
        keys_sorted(m),
    ensures
        keys_sorted(sorted_insert(m, k, v)),
{
    let p = not_before(m, k);
    lemma_first_index_props(m.len() as int, p);
    let r = sorted_insert(m, k, v);
    match first_index(m.len() as int, p) {
        Some(j) => {
            if m[j].0 == k {
                assert forall|a: int, b: int| 0 <= a < b < r.len() implies chars_lt(#[trigger] r[a].0, #[trigger] r[b].0) by {
                    assert(r[a].0 == m[a].0 && r[b].0 == m[b].0);
                }
            } else {
                lemma_chars_lt_total(m[j].0, k);
                assert(chars_lt(k, m[j].0));
                assert forall|a: int, b: int| 0 <= a < b < r.len() implies chars_lt(#[trigger] r[a].0, #[trigger] r[b].0) by {
                    if b < j {
                        assert(r[a] == m[a] && r[b] == m[b]);
                    } else if b == j {
                        assert(r[b].0 == k && r[a] == m[a]);
                        assert(!p(a));
                    } else if a < j {
                        assert(r[a] == m[a] && r[b] == m[b - 1]);
                        assert(!p(a));
                        if b - 1 > j {
                            lemma_chars_lt_trans(k, m[j].0, m[b - 1].0);
                        }
                        lemma_chars_lt_trans(m[a].0, k, m[b - 1].0);
                    } else if a == j {
                        assert(r[a].0 == k && r[b] == m[b - 1]);
                        if b - 1 > j {
                            lemma_chars_lt_trans(k, m[j].0, m[b - 1].0);
                        }
                    } else {
                        assert(r[a] == m[a - 1] && r[b] == m[b - 1]);
                    }
                }
            }
        },
        None => {
            assert forall|a: int, b: int| 0 <= a < b < r.len() implies chars_lt(#[trigger] r[a].0, #[trigger] r[b].0) by {
                if b < m.len() {
                    assert(r[a] == m[a] && r[b] == m[b]);
                } else {
                    assert(r[a] == m[a] && r[b].0 == k);
                    assert(!p(a));
                }
            }
        },
    }
}

/// Entries of `m` by the chars of their names and their values' views.
pub open spec fn named_view<V: View>(m: Seq<(String, V)>) -> Seq<(Seq<char>, V::V)> {
    Seq::new(m.len(), |i: int| (m[i].0@, m[i].1@))
}

/// Whether `a` comes before `b` in code point order.
pub fn chars_less(a: &Vec<char>, b: &Vec<char>) -> (r: bool)
    ensures
        r == chars_lt(a@, b@),
{
    let mut i: usize = 0;
    assert(a@.skip(0) =~= a@ && b@.skip(0) =~= b@);
    while i < a.len() && i < b.len() && a[i] == b[i]
        invariant
            i <= a@.len(),
            i <= b@.len(),
            chars_lt(a@.skip(i as int), b@.skip(i as int)) == chars_lt(a@, b@),
        decreases a@.len() - i,
    {
        assert(a@.skip(i as int).drop_first() =~= a@.skip(i + 1));
        assert(b@.skip(i as int).drop_first() =~= b@.skip(i + 1));
        i = i + 1;
    }
    if i == b.len() {
        false
    } else if i == a.len() {
        true
    } else {
        (a[i] as u32) < (b[i] as u32)
    }
}

/// Sets `k` to `v` in `m`, keeping `m` sorted by key with each key once.
pub fn insert_entry<V: View>(m: &mut Vec<(String, V)>, k: String, v: V)
    ensures
        named_view(final(m)@) == sorted_insert(named_view(old(m)@), k@, v@),
        keys_sorted(named_view(old(m)@)) ==> keys_sorted(named_view(final(m)@)),
{
    let ghost mv = named_view(m@);
    proof {
        if keys_sorted(mv) {
            lemma_sorted_insert_keeps_order(mv, k@, v@);
        }
    }
    let ghost p = not_before(mv, k@);
    let kc = text_chars(k.as_str());
    let mut j: usize = 0;
    while j < m.len()
        invariant
            j <= m@.len(),
            m@ == old(m)@,
            mv == named_view(m@),
            kc@ == k@,
            p == not_before(mv, k@),
            first_index(j as int, p) is None,
            keys_sorted(mv) ==> keys_sorted(sorted_insert(mv, k@, v@)),
        decreases m@.len() - j,
    {
        let ej = text_chars(m[j].0.as_str());
        assert(mv[j as int].0 == ej@);
        if !chars_less(&ej, &kc) {
            assert(p(j as int));
            assert(first_index(j + 1, p) == Some(j as int));
            proof {
                lemma_first_index_extends(j + 1, mv.len() as int, p);
            }
            if chars_are_chars(&ej, &kc) {
                let _ = m.remove(j);
                m.insert(j, (k, v));
                assert(named_view(m@) =~= mv.update(j as int, (k@, v@)));
            } else {
                m.insert(j, (k, v));
                assert(named_view(m@) =~= mv.insert(j as int, (k@, v@)));
            }
            return;
        }
        j = j + 1;
    }
    m.push((k, v));
    assert(named_view(m@) =~= mv.push((k@, v@)));
}

/// Whether `a` and `b` hold the same chars.
pub fn chars_are_chars(a: &Vec<char>, b: &Vec<char>) -> (r: bool)
    ensures
        r == (a@ == b@),
{
    if a.len() != b.len() {
        return false;
    }
    let mut i: usize = 0;
    while i < a.len()
        invariant
            i <= a@.len(),
            a@.len() == b@.len(),
            forall|k: int| 0 <= k < i ==> a@[k] == b@[k],
        decreases a@.len() - i,
    {
        if a[i] != b[i] {
            return false;
        }
        i = i + 1;
    }
    assert(a@ =~= b@);
    true
}

/// Merging a `[keymap]` table: each binding trimmed and in ASCII lower case
/// under its action name in ASCII lower case; an empty binding is an error.
pub open spec fn merge_keymap_spec(
    m: Seq<(Seq<char>, Seq<char>)>,
    entries: Seq<(Seq<char>, ConfigValueView)>,
) -> (Seq<(Seq<char>, Seq<char>)>, Option<ThemeErrorView>)
    decreases entries.len(),
{
    if entries.len() == 0 {
        (m, None)
    } else {
        let k = entries[0].0;
        let field = "keymap."@ + k;
        match string_setting(field, entries[0].1) {
            Err(e) => (m, Some(e)),
            Ok(s) => {
                let b = ascii_lowered(trimmed(s));
                if b.len() == 0 {
                    (m, Some(ThemeErrorView::EmptyRequiredField(field)))
                } else {
                    merge_keymap_spec(sorted_insert(m, ascii_lowered(k), b), entries.drop_first())
                }
            },
        }
    }
}

/// Merging a `[keymap]` table keeps the bindings sorted by action, each once.
pub proof fn lemma_merge_keymap_sorted(m: Seq<(Seq<char>, Seq<char>)>, entries: Seq<(Seq<char>, ConfigValueView)>)
    requires
        keys_sorted(m),
    ensures
        keys_sorted(merge_keymap_spec(m, entries).0),
    decreases entries.len(),
{
    if entries.len() > 0 {
        let k = entries[0].0;
        if let Ok(s) = string_setting("keymap."@ + k, entries[0].1) {
            let b = ascii_lowered(trimmed(s));
            if b.len() > 0 {
                lemma_sorted_insert_keeps_order(m, ascii_lowered(k), b);
                lemma_merge_keymap_sorted(sorted_insert(m, ascii_lowered(k), b), entries.drop_first());
            }
        }
    }
}

/// Building the preset catalog keeps it sorted by slug, each slug once.
pub proof fn lemma_catalog_sorted(acc: Seq<(Seq<char>, Seq<Seq<char>>)>, entries: Seq<(Seq<char>, ConfigValueView)>)
    requires
        keys_sorted(acc),
    ensures
        catalog_entries_spec(acc, entries) matches Ok(c) ==> keys_sorted(c),
    decreases entries.len(),
{
    if entries.len() > 0 {
        if let ConfigValueView::Table(t) = entries[0].1 {
            let m = merge_theme_spec(default_theme(), t);
            lemma_sorted_insert_keeps_order(acc, slug_of(entries[0].0), m.0);
            lemma_catalog_sorted(sorted_insert(acc, slug_of(entries[0].0), m.0), entries.drop_first());
        }
    }
}

fn merge_keymap_table(keymap: &mut KeymapConfig, table: &[(String, ConfigValue)]) -> (r: Result<(), ThemeError>)
    ensures
        keys_sorted(old(keymap)@) ==> keys_sorted(final(keymap)@),
        final(keymap)@ == merge_keymap_spec(old(keymap)@, entries_view(table@)).0,
        match merge_keymap_spec(old(keymap)@, entries_view(table@)).1 {
            None => r is Ok,
            Some(e) => r matches Err(x) && x@ == e,
        },
{
    let ghost ev = entries_view(table@);
    let ghost target = merge_keymap_spec(old(keymap)@, ev);
    proof {
        if keys_sorted(old(keymap)@) {
            lemma_merge_keymap_sorted(old(keymap)@, ev);
        }
    }
    let mut i: usize = 0;
    assert(ev.skip(0) =~= ev);
    while i < table.len()
        invariant
            i <= table@.len(),
            ev == entries_view(table@),
            target == merge_keymap_spec(old(keymap)@, ev),
            merge_keymap_spec(keymap@, ev.skip(i as int)) == target,
            keys_sorted(old(keymap)@) ==> keys_sorted(keymap@),
        decreases table@.len() - i,
    {
        let key = table[i].0.as_str();
        let value = &table[i].1;
        let ghost rest = ev.skip(i as int);
        assert(rest[0] == (key@, value@));
        assert(rest.drop_first() =~= ev.skip(i + 1));
        let field = concat_str("keymap.", key);
        let binding = parse_string(field.as_str(), value)?;
        let bc = text_chars(binding.as_str());
        let bt = trim_chars(&bc);
        let bl = lower_chars(&bt);
        if bl.len() == 0 {
            return Err(ThemeError::EmptyRequiredField(field));
        }
        let kc = text_chars(key);
        let kl = lower_chars(&kc);
        proof {
            assert(named_view(keymap.bindings@) =~= keymap@);
        }
        let ghost before = keymap@;
        let kk = string_of_chars(&kl);
        let bb = string_of_chars(&bl);
        proof {
            if keys_sorted(before) {
                lemma_sorted_insert_keeps_order(before, kk@, bb@);
            }
        }
        insert_entry(&mut keymap.bindings, kk, bb);
        proof {
            assert(named_view(keymap.bindings@) =~= keymap@);
        }
        i = i + 1;
    }
    assert(ev.skip(i as int) =~= Seq::<(Seq<char>, ConfigValueView)>::empty());
    Ok(())
}

/// The first problem with a `[paths]` table: a key other than
/// `writing_folder`, or a value that is not a string.
pub open spec fn paths_problem(entries: Seq<(Seq<char>, ConfigValueView)>) -> Option<ThemeErrorView>
    decreases entries.len(),
{
    if entries.len() == 0 {
        None
    } else {
        let k = entries[0].0;
        if k == "writing_folder"@ {
            match string_setting("paths.writing_folder"@, entries[0].1) {
                Err(e) => Some(e),
                Ok(_) => paths_problem(entries.drop_first()),
            }
        } else {
            Some(ThemeErrorView::UnknownThemeKey("paths."@ + k))
        }
    }
}

/// The last text given to `writing_folder` in a `[paths]` table.
pub open spec fn folder_value(entries: Seq<(Seq<char>, ConfigValueView)>) -> Option<Seq<char>>
    decreases entries.len(),
{
    if entries.len() == 0 {
        None
    } else {
        match entries.last() {
            (k, ConfigValueView::Str(s)) => if k == "writing_folder"@ {
                Some(s)
            } else {
                folder_value(entries.drop_last())
            },
            _ => folder_value(entries.drop_last()),
        }
    }
}

/// The text that the configuration document `doc` gives its
/// `[paths].writing_folder`, if any.
pub open spec fn configured_folder(doc: Option<ConfigValueView>) -> Option<Seq<char>> {
    match doc {
        Some(ConfigValueView::Table(root)) => match section(root, "paths"@) {
            Ok(Some(t)) => folder_value(t),
            _ => None,
        },
        _ => None,
    }
}

fn merge_paths_table(paths: &mut PathsConfig, table: &[(String, ConfigValue)], home: Option<&str>) -> (r:
    Result<(), ThemeError>)
    ensures
        match paths_problem(entries_view(table@)) {
            None => r is Ok,
            Some(e) => r matches Err(x) && x@ == e,
        },
        r is Ok ==> final(paths).writing_folder == match folder_value(entries_view(table@)) {
            Some(s) => folder_path(folder_choice(Some(s)), opt_str(home)),
            None => old(paths).writing_folder,
        },
{
    let ghost ev = entries_view(table@);
    let ghost start = paths.writing_folder;
    let mut i: usize = 0;
    assert(ev.skip(0) =~= ev);
    assert(ev.take(0) =~= Seq::<(Seq<char>, ConfigValueView)>::empty());
    while i < table.len()
        invariant
            i <= table@.len(),
            ev == entries_view(table@),
            paths_problem(ev.skip(i as int)) == paths_problem(ev),
            paths.writing_folder == match folder_value(ev.take(i as int)) {
                Some(s) => folder_path(folder_choice(Some(s)), opt_str(home)),
                None => start,
            },
        decreases table@.len() - i,
    {
        let key = table[i].0.as_str();
        let value = &table[i].1;
        let ghost rest = ev.skip(i as int);
        assert(rest[0] == (key@, value@));
        assert(rest.drop_first() =~= ev.skip(i + 1));
        assert(ev.take(i + 1).drop_last() =~= ev.take(i as int));
        assert(ev.take(i + 1).last() == (key@, value@));
        let k = text_chars(key);
        if chars_are(&k, "writing_folder") {
            let raw = parse_string("paths.writing_folder", value)?;
            paths.writing_folder = resolve_writing_folder_from_config_value(Some(raw.as_str()), home);
        } else {
            return Err(ThemeError::UnknownThemeKey(concat_str("paths.", key)));
        }
        i = i + 1;
    }
    assert(ev.skip(i as int) =~= Seq::<(Seq<char>, ConfigValueView)>::empty());
    assert(ev.take(i as int) =~= ev);
    Ok(())
}

/// Index predicate: entry `i` of `t` has key `key`.
pub open spec fn key_is<V>(t: Seq<(Seq<char>, V)>, key: Seq<char>) -> spec_fn(int) -> bool {
    |i: int| t[i].0 == key
}

/// The value under `key` in table entries `t`.
pub open spec fn lookup<V>(t: Seq<(Seq<char>, V)>, key: Seq<char>) -> Option<V> {
    match first_index(t.len() as int, key_is(t, key)) {
        Some(i) => Some(t[i].1),
        None => None,
    }
}

fn table_get<'a>(t: &'a [(String, ConfigValue)], key: &str) -> (r: Option<&'a ConfigValue>)
    ensures
        match lookup(entries_view(t@), key@) {
            Some(v) => r matches Some(x) && x@ == v,
            None => r is None,
        },
{
    let ghost ev = entries_view(t@);
    let ghost p = key_is(ev, key@);
    let kc = text_chars(key);
    let mut i: usize = 0;
    while i < t.len()
        invariant
            i <= t@.len(),
            ev == entries_view(t@),
            p == key_is(ev, key@),
            kc@ == key@,
            first_index(i as int, p) is None,
        decreases t@.len() - i,
    {
        let ec = text_chars(t[i].0.as_str());
        assert(ev[i as int].0 == ec@);
        if chars_are_chars(&ec, &kc) {
            assert(first_index(i + 1, p) == Some(i as int));
            proof {
                lemma_first_index_extends(i + 1, ev.len() as int, p);
            }
            return Some(&t[i].1);
        }
        i = i + 1;
    }
    None
}

/// Presets merged so far, then the presets of `entries`: each must be a
/// table of theme roles over the default theme, with valid colors; it is
/// filed under its normalized slug.
pub open spec fn catalog_entries_spec(
    acc: Seq<(Seq<char>, Seq<Seq<char>>)>,
    entries: Seq<(Seq<char>, ConfigValueView)>,
) -> Result<Seq<(Seq<char>, Seq<Seq<char>>)>, ThemeErrorView>
    decreases entries.len(),
{
    if entries.len() == 0 {
        Ok(acc)
    } else {
        let slug = entries[0].0;
        match entries[0].1 {
            ConfigValueView::Table(t) => {
                let m = merge_theme_spec(default_theme(), t);
                match m.1 {
                    Some(e) => Err(e),
                    None => match theme_problem(m.0) {
                        Some(e) => Err(e),
                        None => catalog_entries_spec(
                            sorted_insert(acc, slug_of(slug), m.0),
                            entries.drop_first(),
                        ),
                    },
                }
            },
            _ => Err(ThemeErrorView::InvalidType { field: "presets."@ + slug, expected: "table"@ }),
        }
    }
}

/// The preset catalog of TOML document `doc`: its `presets` table.
pub open spec fn catalog_spec(doc: ConfigValueView) -> Result<Seq<(Seq<char>, Seq<Seq<char>>)>, ThemeErrorView> {
    match doc {
        ConfigValueView::Table(root) => match lookup(root, "presets"@) {
            Some(ConfigValueView::Table(presets)) => catalog_entries_spec(Seq::empty(), presets),
            _ => Err(ThemeErrorView::InvalidType { field: "presets"@, expected: "table"@ }),
        },
        _ => Err(ThemeErrorView::InvalidType { field: "preset_catalog"@, expected: "table"@ }),
    }
}

/// The preset catalog of configuration text `raw`.
pub open spec fn catalog_of(raw: Seq<char>) -> Result<Seq<(Seq<char>, Seq<Seq<char>>)>, ThemeErrorView> {
    match toml_document(raw) {
        None => Err(ThemeErrorView::InvalidToml),
        Some(doc) => catalog_spec(doc),
    }
}

pub fn parse_preset_catalog(raw: &str) -> (r: Result<Vec<(String, Theme)>, ThemeError>)
    ensures
        match catalog_of(raw@) {
            Ok(c) => r matches Ok(v) && named_view(v@) == c,
            Err(e) => r matches Err(x) && x@ == e,
        },
        r matches Ok(v) ==> keys_sorted(named_view(v@)),
{
    let parsed = match parse_toml(raw) {
        Ok(v) => v,
        Err(e) => return Err(ThemeError::InvalidToml(e)),
    };
    catalog_from_document(&parsed)
}

/// The preset catalog of the parsed document `parsed`: each preset's theme
/// keyed by its normalized slug.
pub fn catalog_from_document(parsed: &ConfigValue) -> (r: Result<Vec<(String, Theme)>, ThemeError>)
    ensures
        match catalog_spec(parsed@) {
            Ok(c) => r matches Ok(v) && named_view(v@) == c,
            Err(e) => r matches Err(x) && x@ == e,
        },
        r matches Ok(v) ==> keys_sorted(named_view(v@)),
{
    let root = match parsed {
        ConfigValue::Table(t) => t,
        _ => {
            return Err(ThemeError::InvalidType {
                field: "preset_catalog".to_string(),
                expected: "table".to_string(),
            });
        },
    };
    let presets = match table_get(root.as_slice(), "presets") {
        Some(ConfigValue::Table(p)) => p,
        _ => {
            return Err(ThemeError::InvalidType {
                field: "presets".to_string(),
                expected: "table".to_string(),
            });
        },
    };
    let ghost ev = entries_view(presets@);
    let ghost target = catalog_entries_spec(Seq::empty(), ev);
    assert(catalog_spec(parsed@) == target);
    proof {
        lemma_catalog_sorted(Seq::empty(), ev);
    }
    let mut out: Vec<(String, Theme)> = Vec::new();
    let mut i: usize = 0;
    assert(ev.skip(0) =~= ev);
    assert(named_view(out@) =~= Seq::<(Seq<char>, Seq<Seq<char>>)>::empty());
    while i < presets.len()
        invariant
            i <= presets@.len(),
            ev == entries_view(presets@),
            target == catalog_entries_spec(Seq::empty(), ev),
            catalog_spec(parsed@) == target,
            catalog_entries_spec(named_view(out@), ev.skip(i as int)) == target,
        decreases presets@.len() - i,
    {
        let slug = presets[i].0.as_str();
        let value = &presets[i].1;
        let ghost rest = ev.skip(i as int);
        assert(rest[0] == (slug@, value@));
        assert(rest.drop_first() =~= ev.skip(i + 1));
        match value {
            ConfigValue::Table(t) => {
                let mut theme = Theme::default();
                theme.merge_theme_table(t.as_slice())?;
                theme.validate_theme_colors()?;
                let key = crate::theme_presets::normalize_slug(slug);
                insert_entry(&mut out, key, theme);
            },
            _ => {
                return Err(ThemeError::InvalidType {
                    field: concat_str("presets.", slug),
                    expected: "table".to_string(),
                });
            },
        }
        i = i + 1;
    }
    assert(ev.skip(i as int) =~= Seq::<(Seq<char>, ConfigValueView)>::empty());
    Ok(out)
}

/// The table under `key` of the root: absent, a table, or a type error.
pub open spec fn section(root: Seq<(Seq<char>, ConfigValueView)>, key: Seq<char>) -> Result<
    Option<Seq<(Seq<char>, ConfigValueView)>>,
    ThemeErrorView,
> {
    match lookup(root, key) {
        None => Ok(None),
        Some(ConfigValueView::Table(t)) => Ok(Some(t)),
        Some(_) => Err(ThemeErrorView::InvalidType { field: key, expected: "table"@ }),
    }
}

/// A non-blank `theme_preset` replaces the theme with the preset's; an
/// unknown preset is an error that lists the known ones.
pub open spec fn preset_step(a: AppView, root: Seq<(Seq<char>, ConfigValueView)>) -> Result<
    AppView,
    ThemeErrorView,
> {
    match lookup(root, "theme_preset"@) {
        None => Ok(a),
        Some(ConfigValueView::Str(slug)) => if trimmed(slug).len() == 0 {
            Ok(a)
        } else {
            match crate::theme_presets::resolved_preset(slug) {
                Ok(t) => Ok(AppView { theme: t, ..a }),
                Err(_) => Err(
                    ThemeErrorView::UnknownPreset {
                        value: slug,
                        known: crate::theme_presets::known_preset_names(),
                    },
                ),
            }
        },
        Some(_) => Err(ThemeErrorView::InvalidType { field: "theme_preset"@, expected: "string"@ }),
    }
}

pub open spec fn theme_step(a: AppView, root: Seq<(Seq<char>, ConfigValueView)>) -> Result<AppView, ThemeErrorView> {
    match section(root, "theme"@) {
        Err(e) => Err(e),
        Ok(None) => Ok(a),
        Ok(Some(t)) => {
            let m = merge_theme_spec(a.theme, t);
            match m.1 {
                Some(e) => Err(e),
                None => Ok(AppView { theme: m.0, ..a }),
            }
        },
    }
}

pub open spec fn spacing_step(a: AppView, root: Seq<(Seq<char>, ConfigValueView)>) -> Result<AppView, ThemeErrorView> {
    match section(root, "spacing"@) {
        Err(e) => Err(e),
        Ok(None) => Ok(a),
        Ok(Some(t)) => {
            let m = merge_spacing_spec(a.spacing, t);
            match m.1 {
                Some(e) => Err(e),
                None => Ok(AppView { spacing: m.0, ..a }),
            }
        },
    }
}

pub open spec fn typography_step(a: AppView, root: Seq<(Seq<char>, ConfigValueView)>) -> Result<AppView, ThemeErrorView> {
    match section(root, "typography"@) {
        Err(e) => Err(e),
        Ok(None) => Ok(a),
        Ok(Some(t)) => {
            let m = merge_typography_spec(a.typography, t);
            match m.1 {
                Some(e) => Err(e),
                None => Ok(AppView { typography: m.0, ..a }),
            }
        },
    }
}

pub open spec fn cursor_step(a: AppView, root: Seq<(Seq<char>, ConfigValueView)>) -> Result<AppView, ThemeErrorView> {
    match section(root, "cursor"@) {
        Err(e) => Err(e),
        Ok(None) => Ok(a),
        Ok(Some(t)) => {
            let m = merge_cursor_spec(a.cursor, t);
            match m.1 {
                Some(e) => Err(e),
                None => Ok(AppView { cursor: m.0, ..a }),
            }
        },
    }
}

pub open spec fn editor_step(a: AppView, root: Seq<(Seq<char>, ConfigValueView)>) -> Result<AppView, ThemeErrorView> {
    match section(root, "editor"@) {
        Err(e) => Err(e),
        Ok(None) => Ok(a),
        Ok(Some(t)) => {
            let m = merge_editor_spec(a.editor, t);
            match m.1 {
                Some(e) => Err(e),
                None => Ok(AppView { editor: m.0, ..a }),
            }
        },
    }
}

pub open spec fn ui_step(a: AppView, root: Seq<(Seq<char>, ConfigValueView)>) -> Result<AppView, ThemeErrorView> {
    match section(root, "ui"@) {
        Err(e) => Err(e),
        Ok(None) => Ok(a),
        Ok(Some(t)) => {
            let m = merge_ui_spec(a.ui, t);
            match m.1 {
                Some(e) => Err(e),
                None => Ok(AppView { ui: m.0, ..a }),
            }
        },
    }
}

pub open spec fn keymap_step(a: AppView, root: Seq<(Seq<char>, ConfigValueView)>) -> Result<AppView, ThemeErrorView> {
    match section(root, "keymap"@) {
        Err(e) => Err(e),
        Ok(None) => Ok(a),
        Ok(Some(t)) => {
            let m = merge_keymap_spec(a.keymap, t);
            match m.1 {
                Some(e) => Err(e),
                None => Ok(AppView { keymap: m.0, ..a }),
            }
        },
    }
}

pub open spec fn paths_step(a: AppView, root: Seq<(Seq<char>, ConfigValueView)>) -> Result<AppView, ThemeErrorView> {
    match section(root, "paths"@) {
        Err(e) => Err(e),
        Ok(None) => Ok(a),
        Ok(Some(t)) => match paths_problem(t) {
            Some(e) => Err(e),
            None => Ok(a),
        },
    }
}

/// The checks after all sections: theme colors, then a non-empty start menu title.
pub open spec fn final_check(a: AppView) -> Result<AppView, ThemeErrorView> {
    match theme_problem(a.theme) {
        Some(e) => Err(e),
        None => if a.ui.start_menu_title.len() == 0 {
            Err(ThemeErrorView::EmptyRequiredField("ui.start_menu_title"@))
        } else {
            Ok(a)
        },
    }
}

/// Step `k` after the preset: the `theme`, `spacing`, `typography`,
/// `cursor`, `editor`, `ui`, `keymap` and `paths` tables, then the final checks.
pub open spec fn step(k: int, a: AppView, root: Seq<(Seq<char>, ConfigValueView)>) -> Result<
    AppView,
    ThemeErrorView,
> {
    if k == 0 {
        theme_step(a, root)
    } else if k == 1 {
        spacing_step(a, root)
    } else if k == 2 {
        typography_step(a, root)
    } else if k == 3 {
        cursor_step(a, root)
    } else if k == 4 {
        editor_step(a, root)
    } else if k == 5 {
        ui_step(a, root)
    } else if k == 6 {
        keymap_step(a, root)
    } else if k == 7 {
        paths_step(a, root)
    } else {
        final_check(a)
    }
}

/// Steps `k..` in order from settings `a`; the first error wins.
pub open spec fn run_steps(k: int, a: AppView, root: Seq<(Seq<char>, ConfigValueView)>) -> Result<
    AppView,
    ThemeErrorView,
>
    decreases 9 - k,
{
    if k >= 9 {
        Ok(a)
    } else {
        match step(k, a, root) {
            Err(e) => Err(e),
            Ok(b) => run_steps(k + 1, b, root),
        }
    }
}

/// The settings of configuration document `doc`: from the defaults, the
/// preset, then the steps; the first error wins. A document that is not a
/// table is an error.
pub open spec fn app_config_spec(doc: ConfigValueView) -> Result<AppView, ThemeErrorView> {
    match doc {
        ConfigValueView::Table(root) => match preset_step(default_app(), root) {
            Err(e) => Err(e),
            Ok(a) => run_steps(0, a, root),
        },
        _ => Err(ThemeErrorView::InvalidType { field: "root"@, expected: "table"@ }),
    }
}

/// The settings of configuration text `raw`.
pub open spec fn app_config_of(raw: Seq<char>) -> Result<AppView, ThemeErrorView> {
    match toml_document(raw) {
        None => Err(ThemeErrorView::InvalidToml),
        Some(doc) => app_config_spec(doc),
    }
}

fn table_arg<'a>(root: &'a [(String, ConfigValue)], key: &str) -> (r: Result<
    Option<&'a Vec<(String, ConfigValue)>>,
    ThemeError,
>)
    ensures
        match section(entries_view(root@), key@) {
            Ok(None) => r matches Ok(None),
            Ok(Some(t)) => r matches Ok(Some(x)) && entries_view(x@) == t,
            Err(e) => r matches Err(x) && x@ == e,
        },
{
    match table_get(root, key) {
        None => Ok(None),
        Some(ConfigValue::Table(t)) => Ok(Some(t)),
        Some(_) => Err(ThemeError::InvalidType { field: key.to_string(), expected: "table".to_string() }),
    }
}

fn apply_preset(app: &mut AppConfig, root: &[(String, ConfigValue)]) -> (r: Result<(), ThemeError>)
    requires
        old(app)@ == default_app(),
    ensures
        match preset_step(default_app(), entries_view(root@)) {
            Ok(b) => r is Ok && final(app)@ == b,
            Err(e) => r matches Err(x) && x@ == e,
        },
        final(app).paths == old(app).paths,
        final(app).keymap == old(app).keymap,
{
    if let Some(value) = table_get(root, "theme_preset") {
        let raw_slug = match value {
            ConfigValue::Str(s) => s.as_str(),
            _ => {
                return Err(ThemeError::InvalidType {
                    field: "theme_preset".to_string(),
                    expected: "string".to_string(),
                });
            },
        };
        let sc = text_chars(raw_slug);
        let st = trim_chars(&sc);
        if st.len() > 0 {
            match crate::theme_presets::resolve_preset(raw_slug) {
                Ok(t) => {
                    app.theme = t;
                },
                Err(_) => {
                    return Err(ThemeError::UnknownPreset {
                        value: raw_slug.to_string(),
                        known: crate::theme_presets::known_presets(),
                    });
                },
            }
        }
    }
    Ok(())
}

fn apply_step(k: usize, app: &mut AppConfig, root: &[(String, ConfigValue)], home: Option<&str>) -> (r:
    Result<(), ThemeError>)
    requires
        k < 9,
    ensures
        match step(k as int, old(app)@, entries_view(root@)) {
            Ok(b) => r is Ok && final(app)@ == b,
            Err(e) => r matches Err(x) && x@ == e,
        },
        k != 7 ==> final(app).paths == old(app).paths,
        keys_sorted(old(app).keymap@) ==> keys_sorted(final(app).keymap@),
        k == 7 && r is Ok ==> final(app).paths.writing_folder == match section(entries_view(root@), "paths"@) {
            Ok(Some(t)) => match folder_value(t) {
                Some(s) => folder_path(folder_choice(Some(s)), opt_str(home)),
                None => old(app).paths.writing_folder,
            },
            _ => old(app).paths.writing_folder,
        },
{
    if k == 0 {
        if let Some(t) = table_arg(root, "theme")? {
            app.theme.merge_theme_table(t.as_slice())?;
        }
    } else if k == 1 {
        if let Some(t) = table_arg(root, "spacing")? {
            merge_spacing_table(&mut app.spacing, t.as_slice())?;
        }
    } else if k == 2 {
        if let Some(t) = table_arg(root, "typography")? {
            merge_typography_table(&mut app.typography, t.as_slice())?;
        }
    } else if k == 3 {
        if let Some(t) = table_arg(root, "cursor")? {
            merge_cursor_table(&mut app.cursor, t.as_slice())?;
        }
    } else if k == 4 {
        if let Some(t) = table_arg(root, "editor")? {
            merge_editor_table(&mut app.editor, t.as_slice())?;
        }
    } else if k == 5 {
        if let Some(t) = table_arg(root, "ui")? {
            merge_ui_table(&mut app.ui, t.as_slice())?;
        }
    } else if k == 6 {
        if let Some(t) = table_arg(root, "keymap")? {
            merge_keymap_table(&mut app.keymap, t.as_slice())?;
        }
    } else if k == 7 {
        if let Some(t) = table_arg(root, "paths")? {
            merge_paths_table(&mut app.paths, t.as_slice(), home)?;
        }
    } else {
        app.theme.validate_theme_colors()?;
        if app.ui.start_menu_title.as_str().is_empty() {
            return Err(ThemeError::EmptyRequiredField("ui.start_menu_title".to_string()));
        }
    }
    Ok(())
}

/// The settings of the parsed configuration document `parsed`, with `home`
/// the home directory that the writing folder may be under.
pub fn app_config_from_document(parsed: &ConfigValue, home: Option<&str>) -> (r: Result<
    AppConfig,
    ThemeError,
>)
    ensures
        match app_config_spec(parsed@) {
            Ok(a) => r matches Ok(app) && app@ == a,
            Err(e) => r matches Err(x) && x@ == e,
        },
        r matches Ok(app) ==> app.paths.writing_folder == folder_path(
            folder_choice(configured_folder(Some(parsed@))),
            opt_str(home),
        ),
        r matches Ok(app) ==> keys_sorted(app.keymap@),
{
    let root = match parsed {
        ConfigValue::Table(t) => t.as_slice(),
        _ => {
            return Err(ThemeError::InvalidType { field: "root".to_string(), expected: "table".to_string() });
        },
    };
    let ghost rv = entries_view(root@);
    let mut app = AppConfig::with_home(home);
    assert(app.keymap@ == app@.keymap);
    apply_preset(&mut app, root)?;
    let ghost target = run_steps(0, app@, rv);
    assert(app_config_spec(parsed@) == target);
    let mut k: usize = 0;
    while k < 9
        invariant
            k <= 9,
            rv == entries_view(root@),
            app_config_spec(parsed@) == target,
            run_steps(k as int, app@, rv) == target,
            parsed@ == ConfigValueView::Table(rv),
            keys_sorted(app.keymap@),
            app.paths.writing_folder == folder_path(
                if k > 7 {
                    folder_choice(configured_folder(Some(parsed@)))
                } else {
                    FolderChoiceView::Default
                },
                opt_str(home),
            ),
        decreases 9 - k,
    {
        apply_step(k, &mut app, root, home)?;
        k = k + 1;
    }
    Ok(app)
}

/// Reads the configuration text `raw`, with `home` the home directory that
/// the writing folder may be under.
pub fn load_app_config_from_str(raw: &str, home: Option<&str>) -> (r: Result<AppConfig, ThemeError>)
    ensures
        match app_config_of(raw@) {
            Ok(a) => r matches Ok(app) && app@ == a,
            Err(e) => r matches Err(x) && x@ == e,
        },
        r matches Ok(app) ==> app.paths.writing_folder == folder_path(
            folder_choice(configured_folder(toml_document(raw@))),
            opt_str(home),
        ),
        r matches Ok(app) ==> keys_sorted(app.keymap@),
{
    let parsed = match parse_toml(raw) {
        Ok(v) => v,
        Err(e) => return Err(ThemeError::InvalidToml(e)),
    };
    app_config_from_document(&parsed, home)
}

pub fn load_theme_from_str(raw: &str) -> (r: Result<Theme, ThemeError>)
    ensures
        match app_config_of(raw@) {
            Ok(a) => r matches Ok(t) && t@ == a.theme,
            Err(e) => r matches Err(x) && x@ == e,
        },
{
    match load_app_config_from_str(raw, None) {
        Ok(app) => Ok(app.theme),
        Err(e) => Err(e),
    }
}

/// The trimmed text under `key` in table `t`, empty when it is not text.
pub open spec fn text_under(t: Seq<(Seq<char>, ConfigValueView)>, key: Seq<char>) -> Seq<char> {
    match lookup(t, key) {
        Some(ConfigValueView::Str(s)) => trimmed(s),
        _ => Seq::empty(),
    }
}

/// The start-menu title that a configuration document names: its root
/// `start_menu_title`, else that of its `[ui]` table, else `ANSI-Shadow`.
pub open spec fn title_in_document(doc: Option<ConfigValueView>) -> Seq<char> {
    match doc {
        Some(ConfigValueView::Table(t)) => if text_under(t, "start_menu_title"@).len() > 0 {
            text_under(t, "start_menu_title"@)
        } else {
            match lookup(t, "ui"@) {
                Some(ConfigValueView::Table(u)) => if text_under(u, "start_menu_title"@).len() > 0 {
                    text_under(u, "start_menu_title"@)
                } else {
                    "ANSI-Shadow"@
                },
                _ => "ANSI-Shadow"@,
            }
        },
        _ => "ANSI-Shadow"@,
    }
}

/// The start-menu title's name: the configured one when it is not blank,
/// else the one in the configuration text `raw_config` (when it could be
/// read), else `ANSI-Shadow`.
pub open spec fn start_menu_title_name(configured: Seq<char>, raw_config: Option<Seq<char>>) -> Seq<
    char,
> {
    if trimmed(configured).len() > 0 {
        trimmed(configured)
    } else {
        match raw_config {
            None => "ANSI-Shadow"@,
            Some(r) => title_in_document(toml_document(r)),
        }
    }
}

fn text_entry(t: &[(String, ConfigValue)], key: &str) -> (r: Vec<char>)
    ensures
        r@ == text_under(entries_view(t@), key@),
{
    match table_get(t, key) {
        Some(ConfigValue::Str(s)) => {
            let v = text_chars(s.as_str());
            trim_chars(&v)
        },
        _ => Vec::new(),
    }
}

/// The name of the start-menu title art, with `raw_config` the text of the
/// configuration file when it could be read.
pub fn load_start_menu_title_name(app_config: &AppConfig, raw_config: Option<&str>) -> (name: String)
    ensures
        name@ == start_menu_title_name(
            app_config.ui.start_menu_title@,
            match raw_config {
                Some(r) => Some(r@),
                None => None,
            },
        ),
{
    let cv = text_chars(app_config.ui.start_menu_title.as_str());
    let ct = trim_chars(&cv);
    if ct.len() > 0 {
        return string_of_chars(&ct);
    }
    let raw = match raw_config {
        None => return "ANSI-Shadow".to_string(),
        Some(r) => r,
    };
    match parse_toml(raw) {
        Ok(v) => title_from_document(&v),
        Err(_) => "ANSI-Shadow".to_string(),
    }
}

/// The start-menu title that the parsed configuration document `parsed`
/// names (see `title_in_document`).
pub fn title_from_document(parsed: &ConfigValue) -> (name: String)
    ensures
        name@ == title_in_document(Some(parsed@)),
{
    let table = match parsed {
        ConfigValue::Table(t) => t,
        _ => return "ANSI-Shadow".to_string(),
    };
    let root = text_entry(table.as_slice(), "start_menu_title");
    if root.len() > 0 {
        return string_of_chars(&root);
    }
    match table_get(table.as_slice(), "ui") {
        Some(ConfigValue::Table(u)) => {
            let t = text_entry(u.as_slice(), "start_menu_title");
            if t.len() > 0 {
                string_of_chars(&t)
            } else {
                "ANSI-Shadow".to_string()
            }
        },
        _ => "ANSI-Shadow".to_string(),
    }
}

} // verus!

