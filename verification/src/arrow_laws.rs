//! What the arrow keys do in a laid-out paragraph.

use vstd::prelude::*;

use crate::cursor::{normalized, CursorView};
use crate::document::{BlockView, DocumentView, InlineView};
use crate::edit::{cursor_at_gap, gap_index_of, next_char_target, CursorMove};
use crate::edit_laws::{
    block_fits, doc_fits, inlines_fit, leaves_fit, lemma_floor_at_offset, lemma_gap_exact_roundtrip,
    node_fits,
};
use crate::layout::{
    after_char, block_lines, blocks_lines, cells_before, cursor_at_row_col, doc_chars, flatten_block,
    flatten_node, flatten_seq, inner_width, laid_cell_is, layout_move_target, layout_shapes,
    layout_view, line_col_of, line_with_row, max_row, moved_row_col, row_col_of, row_is, rows_lines,
    rows_with_gaps, step_right, text_cells, wrap_rows, LayoutConfig, LineShape, LineView,
};
use crate::layout_laws::lemma_cell_is_doc_char;
use crate::search::{first_index, lemma_first_index_props};
use crate::text::{byte_offset_of, char_index_at, char_utf8_len, is_char_boundary, utf8_len};

verus! {

/// Every char of `s` is ASCII (one byte in UTF-8).
pub open spec fn is_ascii_text(s: Seq<char>) -> bool {
    forall|k: int| 0 <= k < s.len() ==> (#[trigger] s[k] as u32) < 0x80
}

/// A document of one paragraph holding the text `s`.
pub open spec fn plain_paragraph(doc: DocumentView, s: Seq<char>) -> bool {
    doc.blocks == seq![BlockView::Paragraph(seq![InlineView::Text(s)])]
}

/// The caret before byte (and char) `k` of the paragraph's text.
pub open spec fn caret_at(k: int) -> CursorView {
    CursorView { block_index: 0, inline_path: seq![0usize], offset: k as usize }
}

proof fn lemma_ascii_offsets(s: Seq<char>, k: int)
    requires
        is_ascii_text(s),
        0 <= k <= s.len(),
    ensures
        byte_offset_of(s, k) == k,
    decreases k,
{
    if k > 0 {
        lemma_ascii_offsets(s, k - 1);
        crate::text::lemma_byte_offset_step(s, k - 1);
        assert((s[k - 1] as u32) < 0x80);
    }
}

proof fn lemma_plain_chars(doc: DocumentView, s: Seq<char>)
    requires
        plain_paragraph(doc, s),
        is_ascii_text(s),
        s.len() <= usize::MAX,
    ensures
        doc_chars(doc).len() == s.len(),
        forall|k: int| 0 <= k < s.len() ==> #[trigger] doc_chars(doc)[k] == (caret_at(k), s[k]),
        doc_fits(doc),
        leaves_fit(doc),
        utf8_len(s) == s.len(),
{
    let il = seq![InlineView::Text(s)];
    let b = BlockView::Paragraph(il);
    assert(doc.blocks[0] == b);
    assert(flatten_seq(0, Seq::empty(), il, 0) == Seq::<(CursorView, char)>::empty());
    assert(flatten_seq(0, Seq::empty(), il, 1) == flatten_seq(0, Seq::empty(), il, 0) + flatten_node(
        0,
        Seq::<usize>::empty().push(0),
        il[0],
    ));
    assert(Seq::<usize>::empty().push(0) =~= seq![0usize]);
    assert(flatten_block(0, b) == flatten_seq(0, Seq::empty(), il, 1));
    assert(crate::layout::flatten_blocks(doc.blocks, 0) == Seq::<(CursorView, char)>::empty());
    assert(doc_chars(doc) == crate::layout::flatten_blocks(doc.blocks, 0) + flatten_block(0, b));
    assert(flatten_node(0, seq![0usize], il[0]) == text_cells(0, seq![0usize], s));
    assert(doc_chars(doc) =~= text_cells(0, seq![0usize], s));
    assert forall|k: int| 0 <= k < s.len() implies #[trigger] doc_chars(doc)[k] == (caret_at(k), s[k]) by {
        lemma_ascii_offsets(s, k);
    }
    lemma_ascii_offsets(s, s.len() as int);
    assert(s.take(s.len() as int) =~= s);
    assert(inlines_fit(il)) by {
        assert forall|i: int| 0 <= i < il.len() implies node_fits(#[trigger] il[i]) by {}
    }
    assert(block_fits(b));
    assert forall|c: CursorView| #[trigger] crate::cursor::leaf_text(doc, c) is Some implies utf8_len(
        crate::cursor::leaf_text(doc, c)->0,
    ) <= usize::MAX by {
        if c.inline_path.len() > 1 && c.inline_path[0] < 1 {
            assert(crate::cursor::children(il[c.inline_path[0] as int]) is None);
        }
    }
}

proof fn lemma_rwg_plain(rows: Seq<Seq<(CursorView, char)>>, gap: nat)
    ensures
        forall|i: int|
            0 <= i < rows_with_gaps(rows, 0, Seq::empty(), Seq::empty(), gap).len() ==> (#[trigger] rows_with_gaps(
                rows,
                0,
                Seq::empty(),
                Seq::empty(),
                gap,
            )[i]).gutter == 0 && rows_with_gaps(rows, 0, Seq::empty(), Seq::empty(), gap)[i].empty_start_cursor is None,
    decreases rows.len(),
{
    if rows.len() > 0 {
        lemma_rwg_plain(rows.drop_last(), gap);
    }
}

/// The lines of the paragraph: numbered by row, no gutter, no empty-block
/// caret.
proof fn lemma_plain_lines(doc: DocumentView, s: Seq<char>, width: u16, cfg: LayoutConfig)
    requires
        plain_paragraph(doc, s),
        s.len() > 0,
    ensures
        forall|i: int|
            0 <= i < layout_shapes(doc, width, cfg).len() ==> (#[trigger] layout_shapes(doc, width, cfg)[i]).gutter == 0
                && layout_shapes(doc, width, cfg)[i].empty_start_cursor is None,
{
    let inner = inner_width(width);
    let stream = flatten_block(0, doc.blocks[0]);
    assert(stream.len() > 0) by {
        let il = seq![InlineView::Text(s)];
        assert(flatten_seq(0, Seq::empty(), il, 1) == flatten_seq(0, Seq::empty(), il, 0) + flatten_node(
            0,
            Seq::<usize>::empty().push(0),
            il[0],
        ));
    }
    let rows = wrap_rows(stream, cfg, inner);
    let gap = cfg.line_gap_lines as nat;
    let bl = block_lines(doc, 0, inner, cfg);
    assert(bl == rows_lines(rows, 0, Seq::empty(), Seq::empty(), gap, None));
    assert(blocks_lines(doc, 1, inner, cfg) == blocks_lines(doc, 0, inner, cfg) + Seq::<LineShape>::empty() + bl);
    assert(blocks_lines(doc, 1, inner, cfg) =~= bl);
    lemma_rwg_plain(rows.drop_last(), gap);
    let a = rows_with_gaps(rows.drop_last(), 0, Seq::empty(), Seq::empty(), gap);
    assert forall|i: int| 0 <= i < bl.len() implies (#[trigger] bl[i]).gutter == 0 && bl[i].empty_start_cursor is None by {
        if i < a.len() {
            assert(bl[i] == a[i]);
        }
    }
}

proof fn lemma_row_is_index(lines: Seq<LineView>, r: int)
    requires
        forall|i: int| 0 <= i < lines.len() ==> #[trigger] lines[i].row == i,
        0 <= r < lines.len(),
    ensures
        line_with_row(lines, r as usize) == Some(r),
{
    let p = row_is(lines, r as usize);
    lemma_first_index_props(lines.len() as int, p);
    assert(p(r));
    let f = first_index(lines.len() as int, p);
    if let Some(j) = f {
        assert(lines[j].row == j);
    }
}

/// In a paragraph of ASCII text laid out at any width and with any settings,
/// Right moves the caret of gap `g` to gap `g + 1`.
pub proof fn lemma_right_moves_one_gap(doc: DocumentView, s: Seq<char>, width: u16, cfg: LayoutConfig, g: int)
    requires
        plain_paragraph(doc, s),
        is_ascii_text(s),
        s.len() <= usize::MAX,
        crate::layout::layout_fits(doc, width, cfg),
        0 <= g < s.len(),
    ensures
        gap_index_of(
            doc,
            layout_move_target(doc, layout_view(doc, width, cfg), cursor_at_gap(doc, g)->0, CursorMove::Right),
        ) == Some(g + 1),
{
    let n = s.len() as int;
    lemma_plain_chars(doc, s);
    lemma_plain_lines(doc, s, width, cfg);
    let shapes = layout_shapes(doc, width, cfg);
    let lines = layout_view(doc, width, cfg);
    let c = caret_at(g);
    let c1 = caret_at(g + 1);
    assert(cursor_at_gap(doc, g) == Some(c));
    // the result: the caret of gap g + 1
    assert(cursor_at_gap(doc, g + 1) == Some(c1)) by {
        if g + 1 == n {
            assert(doc_chars(doc)[n - 1] == (caret_at(n - 1), s[n - 1]));
            assert((s[n - 1] as u32) < 0x80);
        }
    }
    lemma_gap_exact_roundtrip(doc, g + 1);
    // carets on the text stay put when normalized
    assert forall|k: int| 0 <= k <= n implies #[trigger] normalized(caret_at(k), doc) == caret_at(k) by {
        lemma_floor_at_offset(s, k);
        lemma_ascii_offsets_pub(s, k);
        assert(crate::cursor::top_level_path(seq![0usize], 1) == seq![0usize]);
        assert(seq![0usize].drop_first() =~= Seq::<usize>::empty());
    }
    // one char forward from c
    assert(next_char_target(doc, c) == c1) by {
        let st = crate::edit::doc_starts(doc);
        assert forall|k: int| 0 <= k < n implies #[trigger] st[k] == caret_at(k) by {}
        let p = crate::edit::start_is(st, c);
        lemma_first_index_props(st.len() - 1, p);
        if g < n - 1 {
            assert(p(g));
            let j = first_index(st.len() - 1, p)->0;
            assert(st[j] == caret_at(j));
        } else {
            assert forall|k: int| 0 <= k < st.len() - 1 implies !#[trigger] p(k) by {
                assert(st[k] == caret_at(k));
            }
            lemma_ascii_offsets_pub(s, g);
            lemma_ascii_offsets_pub(s, g + 1);
            crate::text::lemma_char_index_at(s, g);
            assert(crate::cursor::leaf_text(doc, c) == Some(s));
        }
    }
    assert(step_right(doc, c) == c1);
    // rows number the lines
    crate::layout::lemma_layout_rows_are_indices(doc, width, cfg);
    let rc = row_col_of(lines, c);
    if let Some(p) = rc {
        let fi = first_index(lines.len() as int, crate::layout::line_shows(lines, c));
        lemma_first_index_props(lines.len() as int, crate::layout::line_shows(lines, c));
        let i = fi->0;
        let l = lines[i];
        let a = cells_before(shapes, i);
        crate::layout::lemma_cells_before_nonneg(shapes, i);
        assert(p.0 == i);
        lemma_row_is_index(lines, i);
        assert(l.gutter == 0 && l.empty_start_cursor is None);
        let len = l.cells.len() as int;
        // the cells of the line are the chars a..a + len
        assert forall|k: int| 0 <= k < len implies #[trigger] l.cells[k].0 == caret_at(a + k) && a + k < n by {
            lemma_cell_is_doc_char(doc, width, cfg, i, k);
        }
        let lc = laid_cell_is(l.cells, c);
        lemma_first_index_props(len, lc);
        if let Some(j) = first_index(len, lc) {
            // shown before cell j, which is c itself
            assert(l.cells[j].0 == caret_at(a + j));
            assert(a + j == g);
            assert(p.1 == j);
            assert(moved_row_col(lines, i as usize, j as usize, CursorMove::Right) == Some((i, j + 1)));
            if j + 1 < len {
                assert(cursor_at_row_col(lines, i as usize, (j + 1) as usize) == Some(l.cells[j + 1].0));
            } else {
                lemma_cell_is_doc_char(doc, width, cfg, i, len - 1);
                assert(l.cells.last().1 == s[a + len - 1]);
                assert((s[a + len - 1] as u32) < 0x80);
                assert(cursor_at_row_col(lines, i as usize, (j + 1) as usize) == Some(
                    after_char(l.cells.last().0, l.cells.last().1),
                ));
            }
            assert(normalized(c1, doc) == c1);
        } else {
            // shown after the line's last cell
            assert(len > 0);
            assert(after_char(l.cells.last().0, l.cells.last().1) == c);
            lemma_cell_is_doc_char(doc, width, cfg, i, len - 1);
            assert((s[a + len - 1] as u32) < 0x80);
            assert(a + len == g);
            assert(len <= n);
            assert(p.1 == len);
            if i < lines.len() - 1 {
                lemma_row_is_index(lines, i + 1);
                assert(moved_row_col(lines, i as usize, len as usize, CursorMove::Right) == Some((i + 1, 0int)));
                let l2 = lines[i + 1];
                assert(l2.gutter == 0 && l2.empty_start_cursor is None);
                if l2.cells.len() > 0 {
                    lemma_cell_is_doc_char(doc, width, cfg, i + 1, 0);
                    assert(cells_before(shapes, i + 1) == a + len);
                    assert(cursor_at_row_col(lines, (i + 1) as usize, 0) == Some(c));
                } else {
                    assert(cursor_at_row_col(lines, (i + 1) as usize, 0) is None);
                }
                assert(normalized(c, doc) == c);
            } else {
                assert(moved_row_col(lines, i as usize, len as usize, CursorMove::Right) is None);
            }
        }
    } else {
        crate::layout_laws::lemma_char_caret_drawable(doc, width, cfg, g);
    }
}

proof fn lemma_ascii_offsets_pub(s: Seq<char>, k: int)
    requires
        is_ascii_text(s),
        0 <= k <= s.len(),
    ensures
        byte_offset_of(s, k) == k,
{
    lemma_ascii_offsets(s, k);
}

} // verus!
