//! What a layout shows: the document's chars, in order, each once.

use vstd::prelude::*;

use crate::cursor::CursorView;
use crate::document::{BlockView, DocumentView};
use crate::layout::{
    after_char, laid_cell_is, line_col_of, line_shows, row_col_of,
    blank_line, blank_lines, block_lines, blocks_lines, cell_pairs, cells_before, doc_chars,
    flatten_block, flatten_blocks, flatten_node, flatten_seq, text_cells, shape_of, layout_shapes, layout_view, lines_of_shapes, rows_lines,
    rows_with_gaps, stream_lines, wrap_rows, cell_width, row_width, inner_width, LayoutConfig, LineShape,
    LineView,
};

verus! {

/// The rows of `rows`, joined in order.
pub open spec fn concat_rows(rows: Seq<Seq<(CursorView, char)>>) -> Seq<(CursorView, char)>
    decreases rows.len(),
{
    if rows.len() == 0 {
        Seq::empty()
    } else {
        concat_rows(rows.drop_last()) + rows.last()
    }
}

/// The cells of the lines of `shapes`, read line by line.
pub open spec fn shape_cells(shapes: Seq<LineShape>) -> Seq<(CursorView, char)>
    decreases shapes.len(),
{
    if shapes.len() == 0 {
        Seq::empty()
    } else {
        shape_cells(shapes.drop_last()) + shapes.last().cells
    }
}

/// The cursor and char of each cell of `lines`, read line by line.
pub open spec fn laid_chars(lines: Seq<LineView>) -> Seq<(CursorView, char)>
    decreases lines.len(),
{
    if lines.len() == 0 {
        Seq::empty()
    } else {
        laid_chars(lines.drop_last()) + cell_pairs(lines.last().cells)
    }
}

proof fn lemma_wrap_rows_nonempty(stream: Seq<(CursorView, char)>, cfg: LayoutConfig, limit: int)
    ensures
        wrap_rows(stream, cfg, limit).len() >= 1,
    decreases stream.len(),
{
    if stream.len() > 0 {
        lemma_wrap_rows_nonempty(stream.drop_last(), cfg, limit);
    }
}

/// Wrapping only cuts the stream into rows: joined, the rows are the stream.
pub proof fn lemma_wrap_rows_concat(stream: Seq<(CursorView, char)>, cfg: LayoutConfig, limit: int)
    ensures
        concat_rows(wrap_rows(stream, cfg, limit)) == stream,
    decreases stream.len(),
{
    if stream.len() == 0 {
        let rows = wrap_rows(stream, cfg, limit);
        assert(rows == seq![Seq::<(CursorView, char)>::empty()]);
        assert(rows.drop_last() =~= Seq::<Seq<(CursorView, char)>>::empty());
        assert(concat_rows(rows.drop_last()) == Seq::<(CursorView, char)>::empty());
        assert(rows.last() == Seq::<(CursorView, char)>::empty());
        assert(concat_rows(rows) =~= stream);
    } else {
        let prev = wrap_rows(stream.drop_last(), cfg, limit);
        lemma_wrap_rows_concat(stream.drop_last(), cfg, limit);
        lemma_wrap_rows_nonempty(stream.drop_last(), cfg, limit);
        let rows = wrap_rows(stream, cfg, limit);
        let cur = prev.last();
        let x = stream.last();
        if row_width_exceeds(prev, cfg, limit, x) && cur.len() > 0 {
            assert(rows == prev.push(seq![x]));
            assert(rows.drop_last() =~= prev);
        } else {
            assert(rows == prev.update(prev.len() - 1, cur.push(x)));
            assert(rows.drop_last() =~= prev.drop_last());
        }
        assert(stream.drop_last().push(x) =~= stream);
        assert(concat_rows(rows) =~= stream);
    }
}

spec fn row_width_exceeds(
    rows: Seq<Seq<(CursorView, char)>>,
    cfg: LayoutConfig,
    limit: int,
    x: (CursorView, char),
) -> bool {
    crate::layout::row_width(rows.last(), cfg) + crate::layout::cell_width(x.1, cfg) > limit
}

proof fn lemma_shape_cells_concat(a: Seq<LineShape>, b: Seq<LineShape>)
    ensures
        shape_cells(a + b) == shape_cells(a) + shape_cells(b),
    decreases b.len(),
{
    if b.len() == 0 {
        assert(a + b =~= a);
        assert(shape_cells(a) + shape_cells(b) =~= shape_cells(a));
    } else {
        lemma_shape_cells_concat(a, b.drop_last());
        assert((a + b).drop_last() =~= a + b.drop_last());
        assert((a + b).last() == b.last());
        assert(shape_cells(a + b) =~= shape_cells(a) + shape_cells(b));
    }
}

proof fn lemma_blank_cells(n: nat)
    ensures
        shape_cells(blank_lines(n)) == Seq::<(CursorView, char)>::empty(),
    decreases n,
{
    if n > 0 {
        lemma_blank_cells((n - 1) as nat);
        assert(blank_lines(n).drop_last() =~= blank_lines((n - 1) as nat));
        assert(blank_lines(n).last() == blank_line());
        assert(shape_cells(blank_lines(n)) =~= Seq::<(CursorView, char)>::empty());
    }
}

proof fn lemma_rows_with_gaps_cells(
    rows: Seq<Seq<(CursorView, char)>>,
    gutter: usize,
    first_prefix: Seq<char>,
    cont_prefix: Seq<char>,
    gap: nat,
)
    ensures
        shape_cells(rows_with_gaps(rows, gutter, first_prefix, cont_prefix, gap)) == concat_rows(
            rows,
        ),
    decreases rows.len(),
{
    if rows.len() > 0 {
        let prev = rows_with_gaps(rows.drop_last(), gutter, first_prefix, cont_prefix, gap);
        lemma_rows_with_gaps_cells(rows.drop_last(), gutter, first_prefix, cont_prefix, gap);
        let line = LineShape {
            gutter,
            prefix: if rows.len() == 1 {
                first_prefix
            } else {
                cont_prefix
            },
            cells: rows.last(),
            empty_start_cursor: None,
        };
        lemma_shape_cells_concat(prev.push(line), blank_lines(gap));
        lemma_blank_cells(gap);
        assert(prev.push(line).drop_last() =~= prev);
        assert(shape_cells(prev.push(line)) == shape_cells(prev) + rows.last());
        assert(shape_cells(prev.push(line)) + Seq::<(CursorView, char)>::empty() =~= shape_cells(
            prev.push(line),
        ));
    }
}

proof fn lemma_stream_lines_cells(
    stream: Seq<(CursorView, char)>,
    cfg: LayoutConfig,
    limit: int,
    gutter: usize,
    first_prefix: Seq<char>,
    cont_prefix: Seq<char>,
    empty_start: Option<CursorView>,
)
    ensures
        shape_cells(
            stream_lines(stream, cfg, limit, gutter, first_prefix, cont_prefix, empty_start),
        ) == stream,
{
    let rows = wrap_rows(stream, cfg, limit);
    lemma_wrap_rows_nonempty(stream, cfg, limit);
    lemma_wrap_rows_concat(stream, cfg, limit);
    let gap = cfg.line_gap_lines as nat;
    let prev = rows_with_gaps(rows.drop_last(), gutter, first_prefix, cont_prefix, gap);
    lemma_rows_with_gaps_cells(rows.drop_last(), gutter, first_prefix, cont_prefix, gap);
    let all = rows_lines(rows, gutter, first_prefix, cont_prefix, gap, empty_start);
    assert(all.drop_last() =~= prev);
    assert(shape_cells(all) == concat_rows(rows.drop_last()) + rows.last());
}

proof fn lemma_block_lines_cells(doc: DocumentView, bi: usize, inner: int, cfg: LayoutConfig)
    requires
        bi < doc.blocks.len(),
    ensures
        shape_cells(block_lines(doc, bi, inner, cfg)) == flatten_block(bi, doc.blocks[bi as int]),
{
    let b = doc.blocks[bi as int];
    let stream = flatten_block(bi, b);
    let esc = if stream.len() == 0 {
        Some(crate::layout::block_start(doc, bi))
    } else {
        None
    };
    let margin = if cfg.code_margin > inner {
        inner
    } else {
        cfg.code_margin as int
    };
    lemma_stream_lines_cells(
        stream,
        cfg,
        inner - margin,
        margin as usize,
        crate::layout::spaces(margin as nat),
        crate::layout::spaces(margin as nat),
        esc,
    );
    lemma_stream_lines_cells(stream, cfg, inner, 0, Seq::empty(), Seq::empty(), esc);
}

proof fn lemma_blocks_lines_cells(doc: DocumentView, n: int, inner: int, cfg: LayoutConfig)
    requires
        0 <= n <= doc.blocks.len(),
        doc.blocks.len() <= usize::MAX,
    ensures
        shape_cells(blocks_lines(doc, n, inner, cfg)) == flatten_blocks(doc.blocks, n),
    decreases n,
{
    if n > 0 {
        lemma_blocks_lines_cells(doc, n - 1, inner, cfg);
        let prev = blocks_lines(doc, n - 1, inner, cfg);
        let gaps: Seq<LineShape> = if n > 1 {
            blank_lines(cfg.block_gap_lines as nat)
        } else {
            Seq::empty()
        };
        let blk = block_lines(doc, (n - 1) as usize, inner, cfg);
        assert(blocks_lines(doc, n, inner, cfg) == prev + gaps + blk);
        assert(flatten_blocks(doc.blocks, n) == flatten_blocks(doc.blocks, n - 1) + flatten_block(
            (n - 1) as usize,
            doc.blocks[n - 1],
        ));
        lemma_block_lines_cells(doc, (n - 1) as usize, inner, cfg);
        lemma_shape_cells_concat(prev + gaps, blk);
        lemma_shape_cells_concat(prev, gaps);
        lemma_blank_cells(cfg.block_gap_lines as nat);
        assert(shape_cells(Seq::<LineShape>::empty()) == Seq::<(CursorView, char)>::empty());
        assert(shape_cells(gaps) == Seq::<(CursorView, char)>::empty());
        assert(shape_cells(prev) + shape_cells(gaps) =~= shape_cells(prev));
        assert(shape_cells(prev + gaps + blk) =~= flatten_blocks(doc.blocks, n - 1) + flatten_block(
            (n - 1) as usize,
            doc.blocks[n - 1],
        ));
    } else {
        assert(blocks_lines(doc, n, inner, cfg) == Seq::<LineShape>::empty());
        assert(shape_cells(Seq::<LineShape>::empty()) == Seq::<(CursorView, char)>::empty());
    }
}

/// The lines of a layout, read line by line, show exactly the document's
/// chars in document order.
pub proof fn lemma_layout_shows_doc_chars(doc: DocumentView, width: u16, cfg: LayoutConfig)
    requires
        doc.blocks.len() <= usize::MAX,
    ensures
        shape_cells(layout_shapes(doc, width, cfg)) == doc_chars(doc),
        laid_chars(layout_view(doc, width, cfg)) == doc_chars(doc),
{
    let inner = crate::layout::inner_width(width);
    let ls = blocks_lines(doc, doc.blocks.len() as int, inner, cfg);
    lemma_blocks_lines_cells(doc, doc.blocks.len() as int, inner, cfg);
    if ls.len() == 0 {
        let one = seq![blank_line()];
        assert(one.drop_last() =~= Seq::<LineShape>::empty());
        assert(shape_cells(one) =~= Seq::<(CursorView, char)>::empty());
    }
    lemma_laid_chars_of_shapes(layout_shapes(doc, width, cfg));
}

/// Reading the lines of `lines_of_shapes(shapes)` gives the cells of the shapes.
pub proof fn lemma_laid_chars_of_shapes(shapes: Seq<LineShape>)
    ensures
        laid_chars(lines_of_shapes(shapes)) == shape_cells(shapes),
    decreases shapes.len(),
{
    if shapes.len() > 0 {
        let lines = lines_of_shapes(shapes);
        let prev = shapes.drop_last();
        lemma_laid_chars_of_shapes(prev);
        assert forall|i: int| 0 <= i < prev.len() implies lines.drop_last()[i].cells.len()
            == lines_of_shapes(prev)[i].cells.len() && cell_pairs(lines.drop_last()[i].cells)
            == cell_pairs(lines_of_shapes(prev)[i].cells) by {
            assert(cell_pairs(lines.drop_last()[i].cells) =~= prev[i].cells);
            assert(cell_pairs(lines_of_shapes(prev)[i].cells) =~= prev[i].cells);
        }
        lemma_laid_chars_pairs_eq(lines.drop_last(), lines_of_shapes(prev));
        assert(cell_pairs(lines.last().cells) =~= shapes.last().cells);
    }
}

proof fn lemma_laid_chars_pairs_eq(a: Seq<LineView>, b: Seq<LineView>)
    requires
        a.len() == b.len(),
        forall|i: int| 0 <= i < a.len() ==> cell_pairs(#[trigger] a[i].cells) == cell_pairs(b[i].cells),
    ensures
        laid_chars(a) == laid_chars(b),
    decreases a.len(),
{
    if a.len() > 0 {
        lemma_laid_chars_pairs_eq(a.drop_last(), b.drop_last());
        assert(cell_pairs(a.last().cells) == cell_pairs(b[b.len() - 1].cells));
    }
}

/// The cells before line `i` are the first `cells_before(shapes, i)` chars.
proof fn lemma_shape_cells_take(shapes: Seq<LineShape>, i: int)
    requires
        0 <= i <= shapes.len(),
    ensures
        shape_cells(shapes.take(i)).len() == cells_before(shapes, i),
        shape_cells(shapes.take(i)) + shape_cells(shapes.skip(i)) == shape_cells(shapes),
    decreases i,
{
    assert(shapes.take(i) + shapes.skip(i) =~= shapes);
    lemma_shape_cells_concat(shapes.take(i), shapes.skip(i));
    if i > 0 {
        lemma_shape_cells_take(shapes, i - 1);
        assert(shapes.take(i).drop_last() =~= shapes.take(i - 1));
    }
}

/// In a layout, cell `k` of line `i` is the char of the document at the
/// cell's global index.
pub proof fn lemma_cell_is_doc_char(doc: DocumentView, width: u16, cfg: LayoutConfig, i: int, k: int)
    requires
        doc.blocks.len() <= usize::MAX,
        0 <= i < layout_shapes(doc, width, cfg).len(),
        0 <= k < layout_shapes(doc, width, cfg)[i].cells.len(),
    ensures
        0 <= cells_before(layout_shapes(doc, width, cfg), i) + k < doc_chars(doc).len(),
        doc_chars(doc)[cells_before(layout_shapes(doc, width, cfg), i) + k] == layout_shapes(
            doc,
            width,
            cfg,
        )[i].cells[k],
{
    let shapes = layout_shapes(doc, width, cfg);
    lemma_layout_shows_doc_chars(doc, width, cfg);
    lemma_shape_cells_take(shapes, i);
    let rest = shapes.skip(i);
    assert(rest.take(1) + rest.skip(1) =~= rest);
    lemma_shape_cells_concat(rest.take(1), rest.skip(1));
    assert(rest.take(1).drop_last() =~= Seq::<LineShape>::empty());
    assert(rest.take(1).last() == shapes[i]);
    assert(shape_cells(Seq::<LineShape>::empty()) == Seq::<(CursorView, char)>::empty());
    assert(shape_cells(rest.take(1)) =~= shapes[i].cells);
    let before = shape_cells(shapes.take(i));
    assert(shape_cells(shapes) =~= before + shapes[i].cells + shape_cells(rest.skip(1)));
    assert(shape_cells(shapes)[before.len() + k] == shapes[i].cells[k]);
}

proof fn lemma_laid_chars_locate(lines: Seq<LineView>, j: int) -> (r: (int, int))
    requires
        0 <= j < laid_chars(lines).len(),
    ensures
        0 <= r.0 < lines.len(),
        0 <= r.1 < lines[r.0].cells.len(),
        lines[r.0].cells[r.1].0 == laid_chars(lines)[j].0,
    decreases lines.len(),
{
    let pre = laid_chars(lines.drop_last());
    if j < pre.len() {
        let q = lemma_laid_chars_locate(lines.drop_last(), j);
        assert(lines.drop_last()[q.0] == lines[q.0]);
        q
    } else {
        let k = j - pre.len();
        assert(laid_chars(lines)[j] == cell_pairs(lines.last().cells)[k]);
        (lines.len() - 1, k)
    }
}

proof fn lemma_laid_chars_last(lines: Seq<LineView>) -> (i: int)
    requires
        laid_chars(lines).len() > 0,
    ensures
        0 <= i < lines.len(),
        lines[i].cells.len() > 0,
        lines[i].cells.last().0 == laid_chars(lines).last().0,
        lines[i].cells.last().1 == laid_chars(lines).last().1,
    decreases lines.len(),
{
    let pre = laid_chars(lines.drop_last());
    if lines.last().cells.len() > 0 {
        let n = lines.last().cells.len() as int;
        assert(laid_chars(lines).last() == cell_pairs(lines.last().cells)[n - 1]);
        lines.len() - 1
    } else {
        assert(cell_pairs(lines.last().cells) =~= Seq::<(CursorView, char)>::empty());
        assert(laid_chars(lines) =~= pre);
        let i = lemma_laid_chars_last(lines.drop_last());
        assert(lines.drop_last()[i] == lines[i]);
        i
    }
}

proof fn lemma_shown_on_line(lines: Seq<LineView>, i: int, c: CursorView)
    requires
        0 <= i < lines.len(),
        line_col_of(lines[i], c) is Some,
    ensures
        row_col_of(lines, c) is Some,
{
    let p = line_shows(lines, c);
    assert(p(i));
    crate::search::lemma_first_index_props(lines.len() as int, p);
}

/// At every width, the caret before any char of the document is drawn:
/// the layout gives it a row and a column.
pub proof fn lemma_char_caret_drawable(doc: DocumentView, width: u16, cfg: LayoutConfig, j: int)
    requires
        doc.blocks.len() <= usize::MAX,
        0 <= j < doc_chars(doc).len(),
    ensures
        row_col_of(layout_view(doc, width, cfg), doc_chars(doc)[j].0) is Some,
{
    let lines = layout_view(doc, width, cfg);
    lemma_layout_shows_doc_chars(doc, width, cfg);
    let c = doc_chars(doc)[j].0;
    let q = lemma_laid_chars_locate(lines, j);
    let cells = lines[q.0].cells;
    assert(laid_cell_is(cells, c)(q.1));
    crate::search::lemma_first_index_props(cells.len() as int, laid_cell_is(cells, c));
    lemma_shown_on_line(lines, q.0, c);
}

/// At every width, the caret after the document's last char is drawn.
pub proof fn lemma_end_caret_drawable(doc: DocumentView, width: u16, cfg: LayoutConfig)
    requires
        doc.blocks.len() <= usize::MAX,
        doc_chars(doc).len() > 0,
    ensures
        row_col_of(
            layout_view(doc, width, cfg),
            after_char(doc_chars(doc).last().0, doc_chars(doc).last().1),
        ) is Some,
{
    let lines = layout_view(doc, width, cfg);
    lemma_layout_shows_doc_chars(doc, width, cfg);
    let c = after_char(doc_chars(doc).last().0, doc_chars(doc).last().1);
    let i = lemma_laid_chars_last(lines);
    let cells = lines[i].cells;
    crate::search::lemma_first_index_props(cells.len() as int, laid_cell_is(cells, c));
    lemma_shown_on_line(lines, i, c);
}


/// A layout always has a line, even for a document with no text.
pub proof fn lemma_layout_not_empty(doc: DocumentView, width: u16, cfg: LayoutConfig)
    ensures
        layout_view(doc, width, cfg).len() >= 1,
{
}


/// Greedy wrapping: every row fits in `limit` columns or holds at most one
/// cell, no row is empty (unless there is nothing to wrap), and each row is
/// as full as it can be: the next row's first cell would not have fitted on it.
pub proof fn lemma_wrap_rows_greedy(stream: Seq<(CursorView, char)>, cfg: LayoutConfig, limit: int)
    ensures
        ({
            let rows = wrap_rows(stream, cfg, limit);
            &&& rows.len() >= 1
            &&& forall|i: int| 0 <= i < rows.len() ==> #[trigger] rows[i].len() <= 1 || row_width(rows[i], cfg) <= limit
            &&& stream.len() > 0 ==> forall|i: int| 0 <= i < rows.len() ==> #[trigger] rows[i].len() > 0
            &&& forall|i: int| 0 <= i < rows.len() - 1 ==> row_width(#[trigger] rows[i], cfg) + cell_width(rows[i + 1][0].1, cfg) > limit
        }),
    decreases stream.len(),
{
    if stream.len() > 0 {
        lemma_wrap_rows_greedy(stream.drop_last(), cfg, limit);
        let rows = wrap_rows(stream.drop_last(), cfg, limit);
        let cur = rows.last();
        let x = stream.last();
        let r2 = wrap_rows(stream, cfg, limit);
        if row_width(cur, cfg) + cell_width(x.1, cfg) > limit && cur.len() > 0 {
            assert(r2 == rows.push(seq![x]));
            assert forall|i: int| 0 <= i < r2.len() implies #[trigger] r2[i].len() <= 1 || row_width(r2[i], cfg) <= limit by {
                if i < rows.len() {
                    assert(r2[i] == rows[i]);
                }
            }
            assert(stream.drop_last().len() > 0) by {
                if stream.drop_last().len() == 0 {
                    assert(rows == seq![Seq::<(CursorView, char)>::empty()]);
                }
            }
            assert forall|i: int| 0 <= i < r2.len() implies #[trigger] r2[i].len() > 0 by {
                if i < rows.len() {
                    assert(r2[i] == rows[i]);
                }
            }
            assert forall|i: int| 0 <= i < r2.len() - 1 implies row_width(#[trigger] r2[i], cfg) + cell_width(r2[i + 1][0].1, cfg) > limit by {
                if i < rows.len() - 1 {
                    assert(r2[i] == rows[i] && r2[i + 1] == rows[i + 1]);
                }
            }
        } else {
            let last = cur.push(x);
            assert(r2 == rows.update(rows.len() - 1, last));
            assert(last.drop_last() =~= cur);
            assert(row_width(last, cfg) == row_width(cur, cfg) + cell_width(x.1, cfg));
            if cur.len() == 0 {
                assert(stream.drop_last().len() == 0) by {
                    if stream.drop_last().len() > 0 {
                        assert(rows[rows.len() - 1].len() > 0);
                    }
                }
                assert(last.len() == 1);
            }
            assert forall|i: int| 0 <= i < r2.len() implies #[trigger] r2[i].len() <= 1 || row_width(r2[i], cfg) <= limit by {
                if i < rows.len() - 1 {
                    assert(r2[i] == rows[i]);
                }
            }
            assert forall|i: int| 0 <= i < r2.len() implies #[trigger] r2[i].len() > 0 by {
                if i < rows.len() - 1 {
                    assert(r2[i] == rows[i]);
                    if stream.drop_last().len() == 0 {
                        assert(rows == seq![Seq::<(CursorView, char)>::empty()]);
                    }
                }
            }
            assert forall|i: int| 0 <= i < r2.len() - 1 implies row_width(#[trigger] r2[i], cfg) + cell_width(r2[i + 1][0].1, cfg) > limit by {
                assert(r2[i] == rows[i]);
                if i + 1 == rows.len() - 1 {
                    assert(cur.len() > 0);
                    assert(r2[i + 1][0] == cur[0]);
                } else {
                    assert(r2[i + 1] == rows[i + 1]);
                }
            }
        }
    }
}


/// The column limit that block `b` wraps at, at inner width `inner`.
pub open spec fn block_limit(b: BlockView, inner: int, cfg: LayoutConfig) -> int {
    match b {
        BlockView::CodeBlock { .. } => inner - (if cfg.code_margin > inner {
            inner
        } else {
            cfg.code_margin as int
        }),
        _ => inner,
    }
}

/// The rows that block `bi` wraps into.
pub open spec fn block_rows(doc: DocumentView, bi: int, inner: int, cfg: LayoutConfig) -> Seq<
    Seq<(CursorView, char)>,
> {
    wrap_rows(flatten_block(bi as usize, doc.blocks[bi]), cfg, block_limit(doc.blocks[bi], inner, cfg))
}

/// Rows of the first `n` blocks, counted.
pub open spec fn rows_count(doc: DocumentView, n: int, inner: int, cfg: LayoutConfig) -> int
    decreases n,
{
    if n <= 0 {
        0
    } else {
        rows_count(doc, n - 1, inner, cfg) + block_rows(doc, n - 1, inner, cfg).len()
    }
}

proof fn lemma_row_width_cfg(row: Seq<(CursorView, char)>, a: LayoutConfig, b: LayoutConfig)
    requires
        a.extra_word_spacing == b.extra_word_spacing,
        a.extra_letter_spacing == b.extra_letter_spacing,
    ensures
        row_width(row, a) == row_width(row, b),
    decreases row.len(),
{
    if row.len() > 0 {
        lemma_row_width_cfg(row.drop_last(), a, b);
    }
}

/// Wrapping depends on the configuration only through its spacing.
proof fn lemma_wrap_rows_cfg(stream: Seq<(CursorView, char)>, a: LayoutConfig, b: LayoutConfig, limit: int)
    requires
        a.extra_word_spacing == b.extra_word_spacing,
        a.extra_letter_spacing == b.extra_letter_spacing,
    ensures
        wrap_rows(stream, a, limit) == wrap_rows(stream, b, limit),
    decreases stream.len(),
{
    if stream.len() > 0 {
        lemma_wrap_rows_cfg(stream.drop_last(), a, b, limit);
        let rows = wrap_rows(stream.drop_last(), a, limit);
        lemma_row_width_cfg(rows.last(), a, b);
    }
}

proof fn lemma_rows_with_gaps_len(
    rows: Seq<Seq<(CursorView, char)>>,
    gutter: usize,
    fp: Seq<char>,
    cp: Seq<char>,
    gap: nat,
)
    ensures
        rows_with_gaps(rows, gutter, fp, cp, gap).len() == rows.len() * (1 + gap),
    decreases rows.len(),
{
    if rows.len() > 0 {
        lemma_rows_with_gaps_len(rows.drop_last(), gutter, fp, cp, gap);
        let r = rows.len() as int;
        assert((r - 1) * (1 + gap) + 1 + gap == r * (1 + gap)) by (nonlinear_arith);
    }
}

/// Block `bi` takes its rows plus `line_gap_lines` blank lines between each
/// two of them.
proof fn lemma_block_lines_len(doc: DocumentView, bi: int, inner: int, cfg: LayoutConfig)
    requires
        0 <= bi < doc.blocks.len(),
        doc.blocks.len() <= usize::MAX,
    ensures
        block_rows(doc, bi, inner, cfg).len() >= 1,
        block_lines(doc, bi as usize, inner, cfg).len() == block_rows(doc, bi, inner, cfg).len()
            + cfg.line_gap_lines * (block_rows(doc, bi, inner, cfg).len() - 1),
{
    let b = doc.blocks[bi];
    let rows = block_rows(doc, bi, inner, cfg);
    lemma_wrap_rows_greedy(flatten_block(bi as usize, b), cfg, block_limit(b, inner, cfg));
    let m = cfg.line_gap_lines as nat;
    let r = rows.len() as int;
    match b {
        BlockView::CodeBlock { .. } => {
            let margin = if cfg.code_margin > inner {
                inner
            } else {
                cfg.code_margin as int
            };
            lemma_rows_with_gaps_len(rows.drop_last(), margin as usize, crate::layout::spaces(margin as nat), crate::layout::spaces(margin as nat), m);
        },
        _ => {
            lemma_rows_with_gaps_len(rows.drop_last(), 0, Seq::empty(), Seq::empty(), m);
        },
    }
    assert((r - 1) * (1 + m) + 1 == r + m * (r - 1)) by (nonlinear_arith);
}

proof fn lemma_blocks_lines_len(doc: DocumentView, n: int, inner: int, cfg: LayoutConfig)
    requires
        1 <= n <= doc.blocks.len(),
        doc.blocks.len() <= usize::MAX,
    ensures
        rows_count(doc, n, inner, cfg) >= n,
        blocks_lines(doc, n, inner, cfg).len() == rows_count(doc, n, inner, cfg) + cfg.line_gap_lines
            * (rows_count(doc, n, inner, cfg) - n) + cfg.block_gap_lines * (n - 1),
    decreases n,
{
    lemma_block_lines_len(doc, n - 1, inner, cfg);
    let r = block_rows(doc, n - 1, inner, cfg).len() as int;
    let m = cfg.line_gap_lines as int;
    let k = cfg.block_gap_lines as int;
    if n == 1 {
        assert(rows_count(doc, 0, inner, cfg) == 0);
        assert(blocks_lines(doc, 0, inner, cfg).len() == 0);
    } else {
        lemma_blocks_lines_len(doc, n - 1, inner, cfg);
        let s1 = rows_count(doc, n - 1, inner, cfg);
        let l1 = blocks_lines(doc, n - 1, inner, cfg).len() as int;
        assert(l1 + k + (r + m * (r - 1)) == (s1 + r) + m * ((s1 + r) - n) + k * (n - 1)) by (nonlinear_arith)
            requires
                l1 == s1 + m * (s1 - (n - 1)) + k * (n - 2);
    }
}

/// Rows counted for two configurations with the same spacing and code margin agree.
proof fn lemma_rows_count_cfg(doc: DocumentView, n: int, inner: int, a: LayoutConfig, b: LayoutConfig)
    requires
        0 <= n <= doc.blocks.len(),
        a.extra_word_spacing == b.extra_word_spacing,
        a.extra_letter_spacing == b.extra_letter_spacing,
        a.code_margin == b.code_margin,
    ensures
        rows_count(doc, n, inner, a) == rows_count(doc, n, inner, b),
    decreases n,
{
    if n > 0 {
        lemma_rows_count_cfg(doc, n - 1, inner, a, b);
        let bl = doc.blocks[n - 1];
        lemma_wrap_rows_cfg(flatten_block((n - 1) as usize, bl), a, b, block_limit(bl, inner, a));
    }
}

/// Gap settings only add blank lines: `k` between each two blocks and `m`
/// between each two wrapped rows of a block. With `L0` the lines laid out
/// without gaps and `B` blocks, the layout has `L0 + k * (B - 1) + m * (L0 - B)`
/// lines.
pub proof fn lemma_gap_lines_count(doc: DocumentView, width: u16, cfg: LayoutConfig, k: usize, m: usize)
    requires
        0 < doc.blocks.len() <= usize::MAX,
    ensures
        ({
            let cfg0 = LayoutConfig { block_gap_lines: 0, line_gap_lines: 0, ..cfg };
            let cfgk = LayoutConfig { block_gap_lines: k, line_gap_lines: m, ..cfg };
            let l0 = layout_view(doc, width, cfg0).len() as int;
            let nb = doc.blocks.len() as int;
            layout_view(doc, width, cfgk).len() == l0 + k * (nb - 1) + m * (l0 - nb)
        }),
{
    let cfg0 = LayoutConfig { block_gap_lines: 0, line_gap_lines: 0, ..cfg };
    let cfgk = LayoutConfig { block_gap_lines: k, line_gap_lines: m, ..cfg };
    let nb = doc.blocks.len() as int;
    let inner = inner_width(width);
    lemma_blocks_lines_len(doc, nb, inner, cfg0);
    lemma_blocks_lines_len(doc, nb, inner, cfgk);
    lemma_rows_count_cfg(doc, nb, inner, cfg0, cfgk);
    let s = rows_count(doc, nb, inner, cfg0);
    assert(blocks_lines(doc, nb, inner, cfg0).len() == s) by (nonlinear_arith)
        requires
            blocks_lines(doc, nb, inner, cfg0).len() == s + 0 * (s - nb) + 0 * (nb - 1);
    assert(layout_view(doc, width, cfg0).len() == blocks_lines(doc, nb, inner, cfg0).len());
    assert(layout_view(doc, width, cfgk).len() == blocks_lines(doc, nb, inner, cfgk).len());
}


/// The code margin that a code block's lines keep at inner width `inner`.
pub open spec fn code_gutter(inner: int, cfg: LayoutConfig) -> int {
    if cfg.code_margin > inner {
        inner
    } else {
        cfg.code_margin as int
    }
}

/// The block of a line's first cell.
pub open spec fn line_block(l: LineShape) -> int {
    l.cells[0].0.block_index as int
}

/// A line with cells fits: its cells belong to one existing block, its
/// columns stay within that block's limit unless it holds one cell, and a
/// code block's line keeps the code margin.
pub open spec fn line_fits(doc: DocumentView, inner: int, cfg: LayoutConfig, l: LineShape) -> bool {
    l.cells.len() > 0 ==> {
        let bi = line_block(l);
        &&& 0 <= bi < doc.blocks.len()
        &&& forall|k: int| 0 <= k < l.cells.len() ==> #[trigger] l.cells[k].0.block_index == bi
        &&& (l.cells.len() == 1 || row_width(l.cells, cfg) <= block_limit(doc.blocks[bi], inner, cfg))
        &&& (doc.blocks[bi] is CodeBlock ==> l.gutter == code_gutter(inner, cfg))
    }
}

/// A line followed by the next line with cells breaks greedily: within one
/// block, the next line's first cell would not have fitted on the line.
pub open spec fn breaks_greedy(doc: DocumentView, inner: int, cfg: LayoutConfig, a: LineShape, b: LineShape) -> bool {
    line_block(a) == line_block(b) ==> row_width(a.cells, cfg) + cell_width(b.cells[0].1, cfg)
        > block_limit(doc.blocks[line_block(a)], inner, cfg)
}

/// Only lines without cells stand strictly between lines `i` and `j`.
pub open spec fn only_blanks_between(sh: Seq<LineShape>, i: int, j: int) -> bool {
    forall|t: int| i < t < j ==> (#[trigger] sh[t]).cells.len() == 0
}

/// Every two lines with cells and only blank lines between them break greedily.
pub open spec fn shapes_greedy(doc: DocumentView, inner: int, cfg: LayoutConfig, sh: Seq<LineShape>) -> bool {
    forall|i: int, j: int|
        0 <= i < j < sh.len() && (#[trigger] sh[i]).cells.len() > 0 && (#[trigger] sh[j]).cells.len() > 0
            && only_blanks_between(sh, i, j) ==> breaks_greedy(doc, inner, cfg, sh[i], sh[j])
}

/// Every line fits, and the lines with cells belong to blocks `lo..hi`.
pub open spec fn shapes_fit(doc: DocumentView, inner: int, cfg: LayoutConfig, sh: Seq<LineShape>, lo: int, hi: int) -> bool {
    forall|i: int|
        0 <= i < sh.len() ==> line_fits(doc, inner, cfg, #[trigger] sh[i]) && (sh[i].cells.len() > 0
            ==> lo <= line_block(sh[i]) < hi)
}

/// The last line with cells, if any, holds `cells`.
pub open spec fn last_cells_are(sh: Seq<LineShape>, cells: Seq<(CursorView, char)>) -> bool {
    forall|i: int|
        0 <= i < sh.len() && (#[trigger] sh[i]).cells.len() > 0 && only_blanks_between(sh, i, sh.len() as int)
            ==> sh[i].cells == cells
}

proof fn lemma_greedy_pair_left(doc: DocumentView, inner: int, cfg: LayoutConfig, a: Seq<LineShape>, b: Seq<LineShape>, i: int, j: int)
    requires
        shapes_greedy(doc, inner, cfg, a),
        0 <= i < j < a.len(),
        (a + b)[i].cells.len() > 0,
        (a + b)[j].cells.len() > 0,
        only_blanks_between(a + b, i, j),
    ensures
        breaks_greedy(doc, inner, cfg, (a + b)[i], (a + b)[j]),
{
    let s = a + b;
    assert(s[i] == a[i] && s[j] == a[j]);
    assert forall|t: int| i < t < j implies (#[trigger] a[t]).cells.len() == 0 by {
        assert(s[t] == a[t]);
    }
}

proof fn lemma_greedy_pair_right(a: Seq<LineShape>, b: Seq<LineShape>, i: int, j: int)
    requires
        a.len() <= i < j < a.len() + b.len(),
        only_blanks_between(a + b, i, j),
    ensures
        b[i - a.len()] == (a + b)[i],
        b[j - a.len()] == (a + b)[j],
        only_blanks_between(b, i - a.len(), j - a.len()),
{
    let s = a + b;
    let na = a.len() as int;
    assert forall|t: int| i - na < t < j - na implies (#[trigger] b[t]).cells.len() == 0 by {
        assert(s[t + na] == b[t]);
    }
}

proof fn lemma_greedy_pair_cross(doc: DocumentView, inner: int, cfg: LayoutConfig, a: Seq<LineShape>, b: Seq<LineShape>, i: int, j: int)
    requires
        0 <= i < a.len() <= j < a.len() + b.len(),
        (a + b)[i].cells.len() > 0,
        (a + b)[j].cells.len() > 0,
        only_blanks_between(a + b, i, j),
    ensures
        a[i] == (a + b)[i],
        b[j - a.len()] == (a + b)[j],
        only_blanks_between(a, i, a.len() as int),
        only_blanks_between(b, -1, j - a.len()),
{
    let s = a + b;
    let na = a.len() as int;
    assert forall|t: int| i < t < na implies (#[trigger] a[t]).cells.len() == 0 by {
        assert(s[t] == a[t]);
    }
    assert forall|t: int| -1 < t < j - na implies (#[trigger] b[t]).cells.len() == 0 by {
        assert(s[t + na] == b[t]);
    }
}

proof fn lemma_greedy_concat(doc: DocumentView, inner: int, cfg: LayoutConfig, a: Seq<LineShape>, b: Seq<LineShape>)
    requires
        shapes_greedy(doc, inner, cfg, a),
        shapes_greedy(doc, inner, cfg, b),
        forall|i: int, j: int|
            0 <= i < a.len() && 0 <= j < b.len() && (#[trigger] a[i]).cells.len() > 0 && (#[trigger] b[j]).cells.len() > 0
                && only_blanks_between(a, i, a.len() as int) && only_blanks_between(b, -1, j)
                ==> breaks_greedy(doc, inner, cfg, a[i], b[j]),
    ensures
        shapes_greedy(doc, inner, cfg, a + b),
{
    let s = a + b;
    let na = a.len() as int;
    assert forall|i: int, j: int|
        0 <= i < j < s.len() && (#[trigger] s[i]).cells.len() > 0 && (#[trigger] s[j]).cells.len() > 0
            && only_blanks_between(s, i, j) implies breaks_greedy(doc, inner, cfg, s[i], s[j]) by {
        if j < na {
            lemma_greedy_pair_left(doc, inner, cfg, a, b, i, j);
        } else if i >= na {
            lemma_greedy_pair_right(a, b, i, j);
            assert(b[i - na].cells.len() > 0 && b[j - na].cells.len() > 0);
        } else {
            lemma_greedy_pair_cross(doc, inner, cfg, a, b, i, j);
            assert(a[i].cells.len() > 0 && b[j - na].cells.len() > 0);
        }
    }
}

proof fn lemma_fit_concat(doc: DocumentView, inner: int, cfg: LayoutConfig, a: Seq<LineShape>, b: Seq<LineShape>, lo: int, hi: int)
    requires
        shapes_fit(doc, inner, cfg, a, lo, hi),
        shapes_fit(doc, inner, cfg, b, lo, hi),
    ensures
        shapes_fit(doc, inner, cfg, a + b, lo, hi),
{
    assert forall|i: int| 0 <= i < (a + b).len() implies line_fits(doc, inner, cfg, #[trigger] (a + b)[i]) && ((a + b)[i].cells.len() > 0
        ==> lo <= line_block((a + b)[i]) < hi) by {
        if i < a.len() {
            assert((a + b)[i] == a[i]);
        } else {
            assert((a + b)[i] == b[i - a.len()]);
        }
    }
}

proof fn lemma_blank_lines_props(doc: DocumentView, inner: int, cfg: LayoutConfig, n: nat, lo: int, hi: int)
    ensures
        shapes_greedy(doc, inner, cfg, blank_lines(n)),
        shapes_fit(doc, inner, cfg, blank_lines(n), lo, hi),
        forall|i: int| 0 <= i < blank_lines(n).len() ==> (#[trigger] blank_lines(n)[i]).cells.len() == 0,
{
}

/// The rows a block wraps into, as the wrapping laws leave them.
pub open spec fn rows_ok(doc: DocumentView, inner: int, cfg: LayoutConfig, rows: Seq<Seq<(CursorView, char)>>, bi: int, gutter: usize) -> bool {
    let b = doc.blocks[bi];
    let lim = block_limit(b, inner, cfg);
    &&& 0 <= bi < doc.blocks.len()
    &&& (b is CodeBlock ==> gutter == code_gutter(inner, cfg))
    &&& forall|r: int| 0 <= r < rows.len() ==> {
        &&& (forall|k: int| 0 <= k < (#[trigger] rows[r]).len() ==> #[trigger] rows[r][k].0.block_index == bi)
        &&& (rows[r].len() <= 1 || row_width(rows[r], cfg) <= lim)
    }
    &&& forall|r: int| 0 <= r < rows.len() - 1 ==> row_width(#[trigger] rows[r], cfg) + cell_width(rows[r + 1][0].1, cfg) > lim
    &&& rows.len() > 1 ==> forall|r: int| 0 <= r < rows.len() ==> (#[trigger] rows[r]).len() > 0
}

proof fn lemma_line_of_row(doc: DocumentView, inner: int, cfg: LayoutConfig, rows: Seq<Seq<(CursorView, char)>>, bi: int, l: LineShape, r: int)
    requires
        rows_ok(doc, inner, cfg, rows, bi, l.gutter),
        0 <= r < rows.len(),
        l.cells == rows[r],
    ensures
        line_fits(doc, inner, cfg, l),
        l.cells.len() > 0 ==> line_block(l) == bi,
{
    if l.cells.len() > 0 {
        assert(l.cells[0] == rows[r][0]);
        assert forall|k: int| 0 <= k < l.cells.len() implies #[trigger] l.cells[k].0.block_index == bi by {
            assert(l.cells[k] == rows[r][k]);
        }
    }
}

proof fn lemma_rows_with_gaps_greedy(
    doc: DocumentView,
    inner: int,
    cfg: LayoutConfig,
    rows: Seq<Seq<(CursorView, char)>>,
    bi: int,
    gutter: usize,
    fp: Seq<char>,
    cp: Seq<char>,
    gap: nat,
)
    requires
        rows_ok(doc, inner, cfg, rows, bi, gutter),
    ensures
        ({
            let sh = rows_with_gaps(rows, gutter, fp, cp, gap);
            &&& shapes_greedy(doc, inner, cfg, sh)
            &&& shapes_fit(doc, inner, cfg, sh, bi, bi + 1)
            &&& rows.len() > 0 ==> last_cells_are(sh, rows.last())
            &&& rows.len() == 0 ==> sh.len() == 0
        }),
    decreases rows.len(),
{
    if rows.len() > 0 {
        let dl = rows.drop_last();
        assert(rows_ok(doc, inner, cfg, dl, bi, gutter)) by {
            assert forall|r: int| 0 <= r < dl.len() - 1 implies row_width(#[trigger] dl[r], cfg) + cell_width(dl[r + 1][0].1, cfg)
                > block_limit(doc.blocks[bi], inner, cfg) by {
                assert(dl[r] == rows[r] && dl[r + 1] == rows[r + 1]);
            }
            assert forall|r: int| 0 <= r < dl.len() implies #[trigger] dl[r] == rows[r] by {}
        }
        lemma_rows_with_gaps_greedy(doc, inner, cfg, dl, bi, gutter, fp, cp, gap);
        let a = rows_with_gaps(dl, gutter, fp, cp, gap);
        let l = LineShape {
            gutter,
            prefix: if rows.len() == 1 {
                fp
            } else {
                cp
            },
            cells: rows.last(),
            empty_start_cursor: None,
        };
        lemma_line_of_row(doc, inner, cfg, rows, bi, l, rows.len() - 1);
        let one = seq![l];
        assert(a.push(l) == a + one);
        assert(shapes_greedy(doc, inner, cfg, one));
        assert(shapes_fit(doc, inner, cfg, one, bi, bi + 1));
        assert forall|i: int, j: int|
            0 <= i < a.len() && 0 <= j < one.len() && (#[trigger] a[i]).cells.len() > 0 && (#[trigger] one[j]).cells.len() > 0
                && only_blanks_between(a, i, a.len() as int) && only_blanks_between(one, -1, j)
                implies breaks_greedy(doc, inner, cfg, a[i], one[j]) by {
            assert(a[i].cells == dl.last());
            assert(dl.last() == rows[rows.len() - 2]);
            assert(one[j] == l);
        }
        lemma_greedy_concat(doc, inner, cfg, a, one);
        lemma_fit_concat(doc, inner, cfg, a, one, bi, bi + 1);
        let bl = blank_lines(gap);
        lemma_blank_lines_props(doc, inner, cfg, gap, bi, bi + 1);
        lemma_greedy_concat(doc, inner, cfg, a + one, bl);
        lemma_fit_concat(doc, inner, cfg, a + one, bl, bi, bi + 1);
        let sh = a + one + bl;
        assert(rows_with_gaps(rows, gutter, fp, cp, gap) == sh);
        assert forall|i: int|
            0 <= i < sh.len() && (#[trigger] sh[i]).cells.len() > 0 && only_blanks_between(sh, i, sh.len() as int)
                implies sh[i].cells == rows.last() by {
            if i < a.len() {
                assert(sh[a.len() as int] == l);
                assert(rows.len() > 1);
                assert(rows[rows.len() - 1].len() > 0);
                assert(i < a.len() < sh.len());
            } else if i == a.len() {
                assert(sh[i] == l);
            } else {
                assert(sh[i] == bl[i - a.len() - 1]);
            }
        }
    }
}


/// Every cell of `cells` belongs to block `bi`.
pub open spec fn cells_in_block(cells: Seq<(CursorView, char)>, bi: int) -> bool {
    forall|k: int| 0 <= k < cells.len() ==> #[trigger] cells[k].0.block_index == bi
}

proof fn lemma_flatten_node_block(bi: usize, path: Seq<usize>, x: crate::document::InlineView)
    ensures
        cells_in_block(flatten_node(bi, path, x), bi as int),
    decreases x, 0int,
{
    match x {
        crate::document::InlineView::Text(t) => {},
        crate::document::InlineView::Bold(v) => lemma_flatten_seq_block(bi, path, v, v.len() as int),
        crate::document::InlineView::Italic(v) => lemma_flatten_seq_block(bi, path, v, v.len() as int),
        crate::document::InlineView::Link { text, .. } => lemma_flatten_seq_block(bi, path, text, text.len() as int),
    }
}

proof fn lemma_flatten_seq_block(bi: usize, prefix: Seq<usize>, s: Seq<crate::document::InlineView>, n: int)
    ensures
        cells_in_block(flatten_seq(bi, prefix, s, n), bi as int),
    decreases s, 1int, n,
{
    if 0 < n <= s.len() {
        lemma_flatten_seq_block(bi, prefix, s, n - 1);
        assert(s[n - 1] == s[n - 1]);
        lemma_flatten_node_block(bi, prefix.push((n - 1) as usize), s[n - 1]);
        let a = flatten_seq(bi, prefix, s, n - 1);
        let b = flatten_node(bi, prefix.push((n - 1) as usize), s[n - 1]);
        assert(flatten_seq(bi, prefix, s, n) == a + b);
        assert forall|k: int| 0 <= k < (a + b).len() implies #[trigger] (a + b)[k].0.block_index == bi by {
            if k < a.len() {
                assert((a + b)[k] == a[k]);
            } else {
                assert((a + b)[k] == b[k - a.len()]);
            }
        }
    }
}

proof fn lemma_wrap_rows_block(stream: Seq<(CursorView, char)>, cfg: LayoutConfig, limit: int, bi: int)
    requires
        cells_in_block(stream, bi),
    ensures
        forall|r: int| 0 <= r < wrap_rows(stream, cfg, limit).len() ==> cells_in_block(#[trigger] wrap_rows(stream, cfg, limit)[r], bi),
    decreases stream.len(),
{
    if stream.len() > 0 {
        let dl = stream.drop_last();
        assert(cells_in_block(dl, bi)) by {
            assert forall|k: int| 0 <= k < dl.len() implies #[trigger] dl[k].0.block_index == bi by {
                assert(dl[k] == stream[k]);
            }
        }
        lemma_wrap_rows_block(dl, cfg, limit, bi);
        let rows = wrap_rows(dl, cfg, limit);
        let r2 = wrap_rows(stream, cfg, limit);
        let x = stream.last();
        let cur = rows.last();
        lemma_wrap_rows_greedy(dl, cfg, limit);
        assert(x.0.block_index == bi);
        assert(cells_in_block(rows[rows.len() - 1], bi));
        if row_width(cur, cfg) + cell_width(x.1, cfg) > limit && cur.len() > 0 {
            assert(r2 == rows.push(seq![x]));
            assert forall|r: int| 0 <= r < r2.len() implies cells_in_block(#[trigger] r2[r], bi) by {
                if r < rows.len() {
                    assert(r2[r] == rows[r]);
                }
            }
        } else {
            let last = cur.push(x);
            assert(r2 == rows.update(rows.len() - 1, last));
            assert(cells_in_block(last, bi)) by {
                assert forall|k: int| 0 <= k < last.len() implies #[trigger] last[k].0.block_index == bi by {
                    if k < cur.len() {
                        assert(last[k] == cur[k]);
                    }
                }
            }
            assert forall|r: int| 0 <= r < r2.len() implies cells_in_block(#[trigger] r2[r], bi) by {
                if r < rows.len() - 1 {
                    assert(r2[r] == rows[r]);
                }
            }
        }
    }
}

/// The rows of block `bi` satisfy the wrapping laws.
proof fn lemma_block_rows_ok(doc: DocumentView, bi: int, inner: int, cfg: LayoutConfig)
    requires
        0 <= bi < doc.blocks.len(),
        0 <= inner <= usize::MAX,
        doc.blocks.len() <= usize::MAX,
    ensures
        rows_ok(
            doc,
            inner,
            cfg,
            block_rows(doc, bi, inner, cfg),
            bi,
            if doc.blocks[bi] is CodeBlock {
                code_gutter(inner, cfg) as usize
            } else {
                0usize
            },
        ),
{
    let b = doc.blocks[bi];
    let stream = flatten_block(bi as usize, b);
    let lim = block_limit(b, inner, cfg);
    let rows = block_rows(doc, bi, inner, cfg);
    match b {
        BlockView::CodeBlock { text, .. } => {},
        BlockView::Paragraph(il) => lemma_flatten_seq_block(bi as usize, Seq::empty(), il, il.len() as int),
        BlockView::Heading { content, .. } => lemma_flatten_seq_block(bi as usize, Seq::empty(), content, content.len() as int),
    }
    assert(cells_in_block(stream, bi));
    lemma_wrap_rows_block(stream, cfg, lim, bi);
    lemma_wrap_rows_greedy(stream, cfg, lim);
    if rows.len() > 1 {
        assert(stream.len() > 0);
    }
    assert forall|r: int| 0 <= r < rows.len() implies (forall|k: int| 0 <= k < (#[trigger] rows[r]).len() ==> #[trigger] rows[r][k].0.block_index == bi) by {
        assert(cells_in_block(rows[r], bi));
    }
}

proof fn lemma_rows_ok_drop_last(doc: DocumentView, inner: int, cfg: LayoutConfig, rows: Seq<Seq<(CursorView, char)>>, bi: int, gutter: usize)
    requires
        rows_ok(doc, inner, cfg, rows, bi, gutter),
        rows.len() >= 1,
    ensures
        rows_ok(doc, inner, cfg, rows.drop_last(), bi, gutter),
{
    let dl = rows.drop_last();
    assert forall|r: int| 0 <= r < dl.len() - 1 implies row_width(#[trigger] dl[r], cfg) + cell_width(dl[r + 1][0].1, cfg)
        > block_limit(doc.blocks[bi], inner, cfg) by {
        assert(dl[r] == rows[r] && dl[r + 1] == rows[r + 1]);
    }
    assert forall|r: int| 0 <= r < dl.len() implies #[trigger] dl[r] == rows[r] by {}
}

proof fn lemma_rows_lines_greedy(
    doc: DocumentView,
    inner: int,
    cfg: LayoutConfig,
    rows: Seq<Seq<(CursorView, char)>>,
    bi: int,
    gutter: usize,
    fp: Seq<char>,
    cp: Seq<char>,
    gap: nat,
    esc: Option<CursorView>,
)
    requires
        rows_ok(doc, inner, cfg, rows, bi, gutter),
        rows.len() >= 1,
    ensures
        shapes_greedy(doc, inner, cfg, rows_lines(rows, gutter, fp, cp, gap, esc)),
        shapes_fit(doc, inner, cfg, rows_lines(rows, gutter, fp, cp, gap, esc), bi, bi + 1),
{
    lemma_rows_ok_drop_last(doc, inner, cfg, rows, bi, gutter);
    let dl = rows.drop_last();
    lemma_rows_with_gaps_greedy(doc, inner, cfg, dl, bi, gutter, fp, cp, gap);
    let a = rows_with_gaps(dl, gutter, fp, cp, gap);
    let l = LineShape {
        gutter,
        prefix: if rows.len() == 1 {
            fp
        } else {
            cp
        },
        cells: rows.last(),
        empty_start_cursor: esc,
    };
    assert(rows_lines(rows, gutter, fp, cp, gap, esc) == a.push(l));
    lemma_line_of_row(doc, inner, cfg, rows, bi, l, rows.len() - 1);
    let one = seq![l];
    assert(a.push(l) == a + one);
    assert(shapes_greedy(doc, inner, cfg, one));
    assert(shapes_fit(doc, inner, cfg, one, bi, bi + 1));
    assert forall|i: int, j: int|
        0 <= i < a.len() && 0 <= j < one.len() && (#[trigger] a[i]).cells.len() > 0 && (#[trigger] one[j]).cells.len() > 0
            && only_blanks_between(a, i, a.len() as int) && only_blanks_between(one, -1, j)
            implies breaks_greedy(doc, inner, cfg, a[i], one[j]) by {
        assert(a[i].cells == dl.last());
        assert(dl.last() == rows[rows.len() - 2]);
        assert(one[j] == l);
    }
    lemma_greedy_concat(doc, inner, cfg, a, one);
    lemma_fit_concat(doc, inner, cfg, a, one, bi, bi + 1);
}

/// The lines of block `bi` fit and break greedily.
proof fn lemma_block_lines_greedy(doc: DocumentView, bi: int, inner: int, cfg: LayoutConfig)
    requires
        0 <= bi < doc.blocks.len(),
        0 <= inner <= usize::MAX,
        doc.blocks.len() <= usize::MAX,
    ensures
        shapes_greedy(doc, inner, cfg, block_lines(doc, bi as usize, inner, cfg)),
        shapes_fit(doc, inner, cfg, block_lines(doc, bi as usize, inner, cfg), bi, bi + 1),
{
    let b = doc.blocks[bi];
    let rows = block_rows(doc, bi, inner, cfg);
    let margin = code_gutter(inner, cfg);
    let stream = flatten_block(bi as usize, b);
    let esc = if stream.len() == 0 {
        Some(crate::layout::block_start(doc, bi as usize))
    } else {
        None
    };
    lemma_block_rows_ok(doc, bi, inner, cfg);
    lemma_wrap_rows_greedy(stream, cfg, block_limit(b, inner, cfg));
    let gap = cfg.line_gap_lines as nat;
    match b {
        BlockView::CodeBlock { .. } => {
            let sp = crate::layout::spaces(margin as nat);
            lemma_rows_lines_greedy(doc, inner, cfg, rows, bi, margin as usize, sp, sp, gap, esc);
        },
        _ => {
            lemma_rows_lines_greedy(doc, inner, cfg, rows, bi, 0, Seq::empty(), Seq::empty(), gap, esc);
        },
    }
}

proof fn lemma_fit_widen(doc: DocumentView, inner: int, cfg: LayoutConfig, sh: Seq<LineShape>, lo: int, hi: int, lo2: int, hi2: int)
    requires
        shapes_fit(doc, inner, cfg, sh, lo, hi),
        lo2 <= lo,
        hi <= hi2,
    ensures
        shapes_fit(doc, inner, cfg, sh, lo2, hi2),
{
}

proof fn lemma_blocks_lines_greedy(doc: DocumentView, n: int, inner: int, cfg: LayoutConfig)
    requires
        0 <= n <= doc.blocks.len(),
        0 <= inner <= usize::MAX,
        doc.blocks.len() <= usize::MAX,
    ensures
        shapes_greedy(doc, inner, cfg, blocks_lines(doc, n, inner, cfg)),
        shapes_fit(doc, inner, cfg, blocks_lines(doc, n, inner, cfg), 0, n),
    decreases n,
{
    if n > 0 {
        lemma_blocks_lines_greedy(doc, n - 1, inner, cfg);
        lemma_block_lines_greedy(doc, n - 1, inner, cfg);
        let x = blocks_lines(doc, n - 1, inner, cfg);
        let g = if n > 1 {
            blank_lines(cfg.block_gap_lines as nat)
        } else {
            Seq::empty()
        };
        let y = block_lines(doc, (n - 1) as usize, inner, cfg);
        lemma_blank_lines_props(doc, inner, cfg, cfg.block_gap_lines as nat, 0, n);
        assert(shapes_greedy(doc, inner, cfg, g) && shapes_fit(doc, inner, cfg, g, 0, n));
        lemma_greedy_concat(doc, inner, cfg, x, g);
        lemma_fit_widen(doc, inner, cfg, x, 0, n - 1, 0, n);
        lemma_fit_concat(doc, inner, cfg, x, g, 0, n);
        lemma_fit_widen(doc, inner, cfg, y, n - 1, n, 0, n);
        assert forall|i: int, j: int|
            0 <= i < (x + g).len() && 0 <= j < y.len() && (#[trigger] (x + g)[i]).cells.len() > 0 && (#[trigger] y[j]).cells.len() > 0
                && only_blanks_between(x + g, i, (x + g).len() as int) && only_blanks_between(y, -1, j)
                implies breaks_greedy(doc, inner, cfg, (x + g)[i], y[j]) by {
            if i < x.len() {
                assert((x + g)[i] == x[i]);
            } else {
                assert((x + g)[i] == g[i - x.len()]);
            }
        }
        lemma_greedy_concat(doc, inner, cfg, x + g, y);
        lemma_fit_concat(doc, inner, cfg, x + g, y, 0, n);
        assert(blocks_lines(doc, n, inner, cfg) == x + g + y);
    }
}

/// The shapes of laid-out lines.
pub open spec fn line_shapes(lines: Seq<LineView>) -> Seq<LineShape> {
    Seq::new(lines.len(), |i: int| shape_of(lines[i]))
}

/// How a layout wraps: every line with cells holds cells of one block, keeps
/// within that block's column limit (the inner width, less the code margin in
/// a code block) unless it holds a single cell, and a code block's lines keep
/// the code margin as gutter; and breaks are greedy: a line with cells and
/// the next line with cells of the same block (only blank lines between)
/// break only because the next line's first cell would not have fitted.
pub proof fn lemma_layout_wraps_greedily(doc: DocumentView, width: u16, cfg: LayoutConfig)
    requires
        doc.blocks.len() <= usize::MAX,
    ensures
        ({
            let sh = line_shapes(layout_view(doc, width, cfg));
            let inner = inner_width(width);
            &&& shapes_fit(doc, inner, cfg, sh, 0, doc.blocks.len() as int)
            &&& shapes_greedy(doc, inner, cfg, sh)
        }),
{
    let inner = inner_width(width);
    let nb = doc.blocks.len() as int;
    assert(1 <= inner <= 65535);
    lemma_blocks_lines_greedy(doc, nb, inner, cfg);
    let shapes = layout_shapes(doc, width, cfg);
    let sh = line_shapes(layout_view(doc, width, cfg));
    assert forall|i: int| 0 <= i < sh.len() implies #[trigger] sh[i] == shapes[i] by {
        assert(crate::layout::cell_pairs(layout_view(doc, width, cfg)[i].cells) =~= shapes[i].cells);
    }
    assert(sh =~= shapes);
    if blocks_lines(doc, nb, inner, cfg).len() == 0 {
        assert(shapes == seq![blank_line()]);
    }
}

} // verus!
