//! Concrete instances of the layout, merge and configuration laws.

use std::ops::Range;

use tyrannus::config::{
    catalog_from_document, title_from_document, ConfigValue, Theme, ThemeError,
};
use tyrannus::render::{body_inner_rect, Area};
use tyrannus::viewport::merge_regions;
use tyrannus::{layout_document, Block, Document, Inline, LayoutConfig};

fn s(x: &str) -> String {
    x.to_string()
}

fn three_blocks() -> Document {
    Document::with_blocks(vec![
        Block::Paragraph(vec![Inline::text_str("abcdefghijkl")]),
        Block::Heading { level: 2, content: vec![Inline::text_str("xy")] },
        Block::CodeBlock { lang: None, text: "fn main() {}".to_string() },
    ])
}

#[test]
fn gap_settings_add_exactly_the_blank_lines() {
    let doc = three_blocks();
    for w in [6u16, 9, 40] {
        let cfg0 = LayoutConfig { block_gap_lines: 0, line_gap_lines: 0, ..LayoutConfig::default() };
        let l0 = layout_document(&doc, w, &cfg0).lines.len();
        for (k, m) in [(1usize, 0usize), (0, 1), (2, 3)] {
            let cfg = LayoutConfig { block_gap_lines: k, line_gap_lines: m, ..cfg0 };
            let lk = layout_document(&doc, w, &cfg).lines.len();
            assert_eq!(lk, l0 + k * (3 - 1) + m * (l0 - 3), "width {w}, gaps {k}/{m}");
        }
    }
}

#[test]
fn gaps_leave_the_text_rows_alone() {
    let doc = three_blocks();
    let cfg0 = LayoutConfig::default();
    let cfg = LayoutConfig { block_gap_lines: 2, line_gap_lines: 1, ..LayoutConfig::default() };
    let plain: Vec<usize> = layout_document(&doc, 8, &cfg0)
        .lines
        .iter()
        .map(|l| l.cells.len())
        .filter(|n| *n > 0)
        .collect();
    let gapped: Vec<usize> = layout_document(&doc, 8, &cfg)
        .lines
        .iter()
        .map(|l| l.cells.len())
        .filter(|n| *n > 0)
        .collect();
    assert_eq!(plain, gapped);
}

#[test]
fn merging_is_the_same_either_way_round() {
    let a: Vec<Range<usize>> = vec![5..9, 0..2, 20..30];
    let b: Vec<Range<usize>> = vec![8..12, 1..3, 40..41];
    let ab = merge_regions(&a, &b);
    let ba = merge_regions(&b, &a);
    assert_eq!(ab, ba);
    assert_eq!(ab, vec![0..3, 5..12, 20..30, 40..41]);
    for r in &ab {
        assert!(r.start < r.end);
    }
}

#[test]
fn merging_empty_ranges_is_the_same_either_way_round() {
    let a: Vec<Range<usize>> = vec![5..5, 2..3];
    let b: Vec<Range<usize>> = vec![5..8, 9..9];
    assert_eq!(merge_regions(&a, &b), merge_regions(&b, &a));
    assert_eq!(merge_regions(&a, &b), vec![2..3, 5..8, 9..9]);
}

#[test]
fn the_first_bad_role_is_the_one_reported() {
    let mut theme = Theme::default();
    theme.accent = s("beige");
    theme.cursor_line = s("");
    theme.heading2 = s("nope");
    match theme.validate_theme_colors() {
        Err(ThemeError::InvalidColorName { field, value }) => {
            assert!(field.ends_with("accent"), "{field}");
            assert_eq!(value, "beige");
        }
        other => panic!("unexpected {other:?}"),
    }
    theme.accent = s("red");
    match theme.validate_theme_colors() {
        Err(ThemeError::EmptyRequiredField(field)) => assert!(field.ends_with("cursor_line"), "{field}"),
        other => panic!("unexpected {other:?}"),
    }
    theme.cursor_line = s("blue");
    match theme.validate_theme_colors() {
        Err(ThemeError::InvalidColorName { field, .. }) => assert!(field.ends_with("heading2"), "{field}"),
        other => panic!("unexpected {other:?}"),
    }
    theme.heading2 = s("");
    assert!(theme.validate_theme_colors().is_ok());
}

#[test]
fn catalog_reads_a_parsed_document() {
    let doc = ConfigValue::Table(vec![(
        s("presets"),
        ConfigValue::Table(vec![
            (s("Zen  Mode"), ConfigValue::Table(vec![(s("foreground"), ConfigValue::Str(s("red")))])),
            (s("Amber"), ConfigValue::Table(vec![(s("accent"), ConfigValue::Str(s("yellow")))])),
        ]),
    )]);
    let cat = catalog_from_document(&doc).expect("valid catalog");
    let keys: Vec<&str> = cat.iter().map(|(k, _)| k.as_str()).collect();
    assert_eq!(keys, vec!["amber", "zen-mode"]);
    assert_eq!(cat[1].1.foreground, "red");
    assert_eq!(cat[0].1.accent, "yellow");
    assert_eq!(cat[0].1.foreground, Theme::default().foreground);

    let bad = ConfigValue::Table(vec![(s("presets"), ConfigValue::Integer(3))]);
    match catalog_from_document(&bad) {
        Err(ThemeError::InvalidType { field, expected }) => {
            assert_eq!(field, "presets");
            assert_eq!(expected, "table");
        }
        other => panic!("unexpected {other:?}"),
    }
    match catalog_from_document(&ConfigValue::Boolean(true)) {
        Err(ThemeError::InvalidType { field, .. }) => assert_eq!(field, "preset_catalog"),
        other => panic!("unexpected {other:?}"),
    }
}

#[test]
fn title_comes_from_the_root_then_the_ui_table() {
    let root = ConfigValue::Table(vec![
        (s("start_menu_title"), ConfigValue::Str(s(" Big "))),
        (s("ui"), ConfigValue::Table(vec![(s("start_menu_title"), ConfigValue::Str(s("Small")))])),
    ]);
    assert_eq!(title_from_document(&root), "Big");
    let ui = ConfigValue::Table(vec![(
        s("ui"),
        ConfigValue::Table(vec![(s("start_menu_title"), ConfigValue::Str(s("Small")))]),
    )]);
    assert_eq!(title_from_document(&ui), "Small");
    assert_eq!(title_from_document(&ConfigValue::Table(vec![])), "ANSI-Shadow");
    assert_eq!(title_from_document(&ConfigValue::Other), "ANSI-Shadow");
}

#[test]
fn a_frame_too_narrow_for_its_border_has_no_inside() {
    let r = body_inner_rect(Area { x: 3, y: 0, width: 1, height: 6 }, false);
    assert_eq!((r.x, r.width), (4, 0));
    let r = body_inner_rect(Area { x: 2, y: 4, width: 10, height: 12 }, false);
    assert_eq!((r.x, r.y, r.width), (3, 5, 8));
    assert!(r.height <= 12 - 3);
}
