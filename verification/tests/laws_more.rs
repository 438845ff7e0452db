use std::collections::VecDeque;

use tyrannus::edit::{move_cursor_next_char, move_cursor_prev_char};
use tyrannus::{
    cursor_to_gap_index, flatten_document_chars, gap_index_to_cursor, layout_document,
    reduce_edit, Block, Cursor, Document, EditOp, EditorState, Inline, LayoutConfig,
    RenderScheduler, RenderTask,
};

fn text_of(doc: &Document) -> String {
    flatten_document_chars(doc).iter().map(|(_, c)| *c).collect()
}

fn two_paragraphs() -> Document {
    Document::with_blocks(vec![
        Block::Paragraph(vec![Inline::text_str("ab")]),
        Block::Paragraph(vec![Inline::text_str("cd")]),
    ])
}

#[test]
fn typing_goes_in_at_the_caret_gap() {
    let mut doc = two_paragraphs();
    let mut st = EditorState { cursor: Cursor::new(1, vec![0], 1), ..Default::default() };
    assert_eq!(cursor_to_gap_index(&doc, &st.cursor), Some(3));
    assert!(reduce_edit(&mut doc, &mut st, EditOp::InsertChar('X')));
    assert_eq!(text_of(&doc), "abcXd");
    assert_eq!(cursor_to_gap_index(&doc, &st.cursor), Some(4));
    assert_eq!(doc.blocks.len(), 2);
    assert!(st.selection.is_none());
}

#[test]
fn typing_at_a_leaf_end_moves_the_caret_past_the_char() {
    let mut doc = two_paragraphs();
    let mut st = EditorState { cursor: Cursor::new(0, vec![0], 2), ..Default::default() };
    assert_eq!(cursor_to_gap_index(&doc, &st.cursor), Some(2));
    assert!(reduce_edit(&mut doc, &mut st, EditOp::InsertChar('é')));
    assert_eq!(text_of(&doc), "abécd");
    assert_eq!(st.cursor, Cursor::new(0, vec![0], 4));
    assert_eq!(cursor_to_gap_index(&doc, &st.cursor), Some(3));
}

#[test]
fn every_gap_maps_back_to_itself() {
    let doc = Document::with_blocks(vec![
        Block::Paragraph(vec![Inline::text_str("añ"), Inline::Bold(vec![Inline::text_str("b")])]),
        Block::CodeBlock { lang: None, text: "x\ny".to_string() },
    ]);
    let n = flatten_document_chars(&doc).len();
    assert_eq!(n, 6);
    for g in 0..=n {
        let c = gap_index_to_cursor(&doc, g).expect("gap has a caret");
        assert_eq!(cursor_to_gap_index(&doc, &c), Some(g));
    }
}

#[test]
fn one_char_back_undoes_one_char_forward() {
    let doc = Document::with_blocks(vec![
        Block::Paragraph(vec![Inline::text_str("añ")]),
        Block::Heading { level: 1, content: vec![Inline::text_str("z")] },
    ]);
    for (start, _) in flatten_document_chars(&doc) {
        let mut c = start.clone();
        move_cursor_next_char(&doc, &mut c);
        assert_ne!(c, start);
        move_cursor_prev_char(&doc, &mut c);
        assert_eq!(c, start);
    }
}

#[test]
fn normalizing_twice_is_normalizing_once() {
    let doc = Document::with_blocks(vec![
        Block::Paragraph(vec![Inline::Italic(vec![]), Inline::text_str("ñb")]),
        Block::CodeBlock { lang: None, text: "añ".to_string() },
    ]);
    for c0 in [
        Cursor::new(0, vec![0, 3], 7),
        Cursor::new(0, vec![1], 2),
        Cursor::new(1, vec![4], 2),
        Cursor::new(9, vec![], 99),
    ] {
        let mut once = c0.clone();
        once.normalize(&doc);
        let mut twice = once.clone();
        twice.normalize(&doc);
        assert_eq!(once, twice);
    }
}

#[test]
fn empty_document_still_lays_out_a_line() {
    let doc = Document::with_blocks(vec![]);
    let laid = layout_document(&doc, 20, &LayoutConfig::default());
    assert_eq!(laid.lines.len(), 1);
}

#[test]
fn draining_does_the_budget_or_all_the_work() {
    let mut s = RenderScheduler::default();
    s.queue = VecDeque::from(vec![RenderTask { range: 0..3 }, RenderTask { range: 5..7 }]);
    assert_eq!(s.drain_within_budget(10), 5);
    assert!(s.queue.is_empty());
    s.queue = VecDeque::from(vec![RenderTask { range: 0..3 }, RenderTask { range: 5..9 }]);
    assert_eq!(s.drain_within_budget(4), 4);
    assert_eq!(s.queue.len(), 1);
    assert_eq!(s.queue[0].range, 6..9);
}

#[test]
fn char_starts_increase_in_document_order() {
    let doc = Document::with_blocks(vec![
        Block::Paragraph(vec![
            Inline::text_str("añ"),
            Inline::Bold(vec![Inline::text_str("b"), Inline::Italic(vec![Inline::text_str("c")])]),
            Inline::text_str("d"),
        ]),
        Block::CodeBlock { lang: None, text: "xy".to_string() },
        Block::Heading { level: 2, content: vec![Inline::text_str("z")] },
    ]);
    let keys: Vec<(usize, Vec<usize>, usize)> = flatten_document_chars(&doc)
        .iter()
        .map(|(c, _)| (c.block_index, c.inline_path.clone(), c.offset))
        .collect();
    assert_eq!(keys.len(), 8);
    for w in keys.windows(2) {
        assert!(w[0] < w[1], "{:?} before {:?}", w[0], w[1]);
    }
}

#[test]
fn wrapping_fills_each_row_before_the_next() {
    let doc = Document::with_blocks(vec![Block::Paragraph(vec![Inline::text_str(
        "abcdefghijklmnopqrstuvw",
    )])]);
    for w in [5u16, 8, 13] {
        let laid = layout_document(&doc, w, &LayoutConfig::default());
        let lens: Vec<usize> = laid.lines.iter().map(|l| l.cells.len()).collect();
        assert!(lens.len() > 1);
        let full = lens[0];
        assert!(full >= 1 && full <= w as usize);
        for l in &lens[..lens.len() - 1] {
            assert_eq!(*l, full, "width {w}: {lens:?}");
        }
        assert!(*lens.last().unwrap() >= 1 && *lens.last().unwrap() <= full);
        assert_eq!(lens.iter().sum::<usize>(), 23);
    }
}
