//! The library surface as an outside crate sees it.

use tyrannus::{
    apply_cursor_move_in_layout, cursor_to_gap_index, cursor_to_row_col, document_char_count,
    gap_index_to_cursor, layout_document, reduce, reduce_edit, viewport_line_range, Block, Cursor,
    CursorMove, Document, EditOp, EditorState, Inline, LayoutConfig,
};

#[test]
fn viewport_line_range_via_lib_crate_bounds() {
    assert_eq!(viewport_line_range(2, 4, 20), 2..6);
}

#[test]
fn apply_cursor_move_in_layout_against_precomputed_laid_document() {
    let mut doc = Document::new();
    let mut st = EditorState::default();
    assert!(reduce_edit(&mut doc, &mut st, EditOp::InsertChar('z')));
    let w = 24u16;
    let laid = layout_document(&doc, w, &LayoutConfig::default());
    apply_cursor_move_in_layout(&doc, &laid, &mut st, CursorMove::End);
    apply_cursor_move_in_layout(&doc, &laid, &mut st, CursorMove::Home);
}

#[test]
fn new_document_inserts_and_layouts() {
    let mut doc = Document::new();
    let mut st = EditorState::default();
    assert!(reduce_edit(&mut doc, &mut st, EditOp::InsertChar('a')));
    let laid = layout_document(&doc, 40, &LayoutConfig::default());
    assert!(!laid.lines.is_empty());
}

#[test]
fn proptest_smoke_mixed_block_doc() {
    let mut doc = Document::with_blocks(vec![
        Block::Heading {
            level: 1,
            content: vec![Inline::text_str("H")],
        },
        Block::CodeBlock {
            lang: None,
            text: "c".to_string(),
        },
    ]);
    let mut st = EditorState {
        cursor: Cursor::new(0, vec![0], 0),
        ..Default::default()
    };
    st.cursor.normalize(&doc);
    let w = 40u16;
    let _ = reduce(&mut doc, &mut st, EditOp::MoveCursor(CursorMove::Right), w);
    let _ = reduce(&mut doc, &mut st, EditOp::MoveCursor(CursorMove::Down), w);
    st.cursor.normalize(&doc);
    let flat = document_char_count(&doc);
    assert!(flat >= 1);
    let laid = layout_document(&doc, w, &LayoutConfig::default());
    let _ = cursor_to_row_col(&doc, &laid, &st.cursor);
}

/// Fixed edit sequences over every op kind keep gap indices and layout
/// mapping consistent.
#[test]
fn fixed_edit_sequences_keep_gap_invariants() {
    let moves = [
        CursorMove::Left,
        CursorMove::Right,
        CursorMove::Up,
        CursorMove::Down,
        CursorMove::Home,
        CursorMove::End,
    ];
    for seed in 0u32..24 {
        let mut doc = Document::new();
        let mut st = EditorState::default();
        let w = 24u16;
        let mut x = seed.wrapping_mul(2654435761).wrapping_add(17);
        for _ in 0..48 {
            x = x.wrapping_mul(1103515245).wrapping_add(12345);
            let pick = (x >> 8) % 60;
            let op = if pick < 40 {
                EditOp::InsertChar((b' ' + ((x >> 16) % 95) as u8) as char)
            } else if pick < 42 {
                EditOp::NewLine
            } else if pick < 44 {
                EditOp::Backspace
            } else if pick < 46 {
                EditOp::ToggleBold
            } else if pick < 48 {
                EditOp::ToggleItalic
            } else {
                EditOp::MoveCursor(moves[((x >> 20) % 6) as usize])
            };
            let _ = reduce(&mut doc, &mut st, op, w);
            st.cursor.normalize(&doc);
        }
        let n = document_char_count(&doc);
        if let Some(g) = cursor_to_gap_index(&doc, &st.cursor) {
            assert!(g <= n);
            let c2 = gap_index_to_cursor(&doc, g).expect("gap maps back to a cursor");
            assert!(cursor_to_gap_index(&doc, &c2).is_some());
        }
        let laid = layout_document(&doc, w, &LayoutConfig::default());
        let _ = cursor_to_row_col(&doc, &laid, &st.cursor);
    }
}
