//! Full-document layout: blocks to wrapped visual lines and cursor mapping.

use vstd::prelude::*;

use crate::cursor::{copy_cursor, cursor_eq, normalized, Cursor, CursorView};
use crate::edit::{
    cursor_at_gap, cursor_to_gap_index, gap_index_of, gap_index_to_cursor, move_cursor_next_char,
    move_cursor_prev_char, next_char_target, prev_char_target, CursorMove,
};
use crate::search::{first_index, lemma_first_index_extends, lemma_first_index_props};
use crate::document::{inlines_view, Block, BlockView, Document, DocumentView, Inline, InlineView};
use crate::text::{
    byte_offset_of, char_len_utf8, char_offsets, char_utf8_len, lemma_byte_offset_le_len,
    lemma_byte_offset_step, text_byte_len, text_chars, utf8_len,
};

verus! {

/// One cell per char of `s`: the cursor before it (in the leaf at `path` of block `bi`) and the char.
pub open spec fn text_cells(bi: usize, path: Seq<usize>, s: Seq<char>) -> Seq<(CursorView, char)> {
    Seq::new(
        s.len(),
        |k: int|
            (
                CursorView { block_index: bi, inline_path: path, offset: byte_offset_of(s, k) as usize },
                s[k],
            ),
    )
}

/// Cells of the first `n` nodes of `s`, whose paths start with `prefix`, in document order.
pub open spec fn flatten_seq(bi: usize, prefix: Seq<usize>, s: Seq<InlineView>, n: int) -> Seq<
    (CursorView, char),
>
    decreases s, n,
{
    if n <= 0 || n > s.len() {
        Seq::empty()
    } else {
        flatten_seq(bi, prefix, s, n - 1) + flatten_node(bi, prefix.push((n - 1) as usize), s[n - 1])
    }
}

/// Cells of one inline node whose path is `path`.
pub open spec fn flatten_node(bi: usize, path: Seq<usize>, x: InlineView) -> Seq<(CursorView, char)>
    decreases x, 0int,
{
    match x {
        InlineView::Text(t) => text_cells(bi, path, t),
        InlineView::Bold(v) => flatten_seq(bi, path, v, v.len() as int),
        InlineView::Italic(v) => flatten_seq(bi, path, v, v.len() as int),
        InlineView::Link { text, .. } => flatten_seq(bi, path, text, text.len() as int),
    }
}

/// Cells of an inline sequence in document order.
pub open spec fn flatten_inlines(bi: usize, prefix: Seq<usize>, s: Seq<InlineView>) -> Seq<
    (CursorView, char),
> {
    flatten_seq(bi, prefix, s, s.len() as int)
}

/// Cells of block `bi`.
pub open spec fn flatten_block(bi: usize, b: BlockView) -> Seq<(CursorView, char)> {
    match b {
        BlockView::Paragraph(il) => flatten_inlines(bi, Seq::empty(), il),
        BlockView::Heading { content, .. } => flatten_inlines(bi, Seq::empty(), content),
        BlockView::CodeBlock { text, .. } => text_cells(bi, Seq::empty(), text),
    }
}

/// Cells of the first `n` blocks.
pub open spec fn flatten_blocks(blocks: Seq<BlockView>, n: int) -> Seq<(CursorView, char)>
    decreases n,
{
    if n <= 0 || n > blocks.len() {
        Seq::empty()
    } else {
        flatten_blocks(blocks, n - 1) + flatten_block((n - 1) as usize, blocks[n - 1])
    }
}

/// Every `(cursor, char)` of the document in document order: the global char order.
pub open spec fn doc_chars(doc: DocumentView) -> Seq<(CursorView, char)> {
    flatten_blocks(doc.blocks, doc.blocks.len() as int)
}

/// The text of the document in global char order.
pub open spec fn doc_text(doc: DocumentView) -> Seq<char> {
    doc_chars(doc).map_values(|p: (CursorView, char)| p.1)
}

/// Models of `(cursor, char)` pairs.
pub open spec fn pairs_view(v: Seq<(Cursor, char)>) -> Seq<(CursorView, char)> {
    Seq::new(v.len(), |i: int| (v[i].0@, v[i].1))
}

/// Every cell's cursor can be advanced past its char without leaving `usize`.
pub open spec fn cells_fit(v: Seq<(CursorView, char)>) -> bool {
    forall|i: int| 0 <= i < v.len() ==> #[trigger] v[i].0.offset + char_utf8_len(v[i].1) <= isize::MAX
}

/// Cursor just after `ch` when `c` is the cursor before it.
pub open spec fn after_char(c: CursorView, ch: char) -> CursorView {
    CursorView { offset: (c.offset + char_utf8_len(ch)) as usize, ..c }
}

pub proof fn lemma_flatten_seq_step(bi: usize, prefix: Seq<usize>, s: Seq<InlineView>, n: int)
    requires
        0 <= n < s.len(),
    ensures
        flatten_seq(bi, prefix, s, n + 1) == flatten_seq(bi, prefix, s, n) + flatten_node(
            bi,
            prefix.push(n as usize),
            s[n],
        ),
{
}

pub proof fn lemma_flatten_blocks_step(blocks: Seq<BlockView>, n: int)
    requires
        0 <= n < blocks.len(),
    ensures
        flatten_blocks(blocks, n + 1) == flatten_blocks(blocks, n) + flatten_block(
            n as usize,
            blocks[n],
        ),
{
}

/// Appends the cells of text `s` at `path` in block `bi` to `out`.
fn push_text_cells(bi: usize, path: &Vec<usize>, s: &str, out: &mut Vec<(Cursor, char)>)
    requires
        cells_fit(pairs_view(old(out)@)),
    ensures
        pairs_view(final(out)@) == pairs_view(old(out)@) + text_cells(bi, path@, s@),
        cells_fit(pairs_view(final(out)@)),
{
    let _n = text_byte_len(s);
    let chars = text_chars(s);
    let offs = char_offsets(&chars);
    let mut k: usize = 0;
    let ghost base = pairs_view(out@);
    while k < chars.len()
        invariant
            chars@ == s@,
            offs@.len() == chars@.len() + 1,
            forall|j: int| 0 <= j <= chars@.len() ==> offs@[j] == byte_offset_of(chars@, j),
            k <= chars@.len(),
            pairs_view(out@) == base + text_cells(bi, path@, s@).take(k as int),
            utf8_len(s@) <= isize::MAX,
            cells_fit(pairs_view(out@)),
        decreases chars@.len() - k,
    {
        let p = path.clone();
        assert(p@ =~= path@);
        let c = Cursor { block_index: bi, inline_path: p, offset: offs[k] };
        let ghost cell = (c@, chars@[k as int]);
        proof {
            lemma_byte_offset_step(chars@, k as int);
            lemma_byte_offset_le_len(chars@, k + 1);
        }
        assert(cell == text_cells(bi, path@, s@)[k as int]);
        let ghost prev = pairs_view(out@);
        out.push((c, chars[k]));
        assert(pairs_view(out@) =~= prev.push(cell));
        assert(cells_fit(pairs_view(out@))) by {
            assert forall|i: int| 0 <= i < pairs_view(out@).len() implies #[trigger] pairs_view(out@)[i].0.offset + char_utf8_len(pairs_view(out@)[i].1) <= isize::MAX by {
                if i < prev.len() {
                    assert(pairs_view(out@)[i] == prev[i]);
                }
            }
        }
        k = k + 1;
        assert(pairs_view(out@) =~= base + text_cells(bi, path@, s@).take(k as int));
    }
    assert(text_cells(bi, path@, s@).take(k as int) =~= text_cells(bi, path@, s@));
}

fn walk_inlines(
    block_index: usize,
    inlines: &[Inline],
    path: &mut Vec<usize>,
    out: &mut Vec<(Cursor, char)>,
)
    requires
        cells_fit(pairs_view(old(out)@)),
    ensures
        final(path)@ == old(path)@,
        cells_fit(pairs_view(final(out)@)),
        pairs_view(final(out)@) == pairs_view(old(out)@) + flatten_inlines(
            block_index,
            old(path)@,
            inlines_view(inlines@),
        ),
    decreases inlines@, 0nat,
{
    let ghost prefix = path@;
    let ghost base = pairs_view(out@);
    let ghost iv = inlines_view(inlines@);
    let mut i: usize = 0;
    while i < inlines.len()
        invariant
            path@ == prefix,
            iv == inlines_view(inlines@),
            i <= inlines@.len(),
            pairs_view(out@) == base + flatten_seq(block_index, prefix, iv, i as int),
            cells_fit(pairs_view(out@)),
        decreases inlines@.len() - i,
    {
        path.push(i);
        let ghost before = pairs_view(out@);
        match &inlines[i] {
            Inline::Text(s) => {
                push_text_cells(block_index, path, s.as_str(), out);
            },
            Inline::Bold(inner) => {
                walk_inlines(block_index, inner.as_slice(), path, out);
            },
            Inline::Italic(inner) => {
                walk_inlines(block_index, inner.as_slice(), path, out);
            },
            Inline::Link { text, .. } => {
                walk_inlines(block_index, text.as_slice(), path, out);
            },
        }
        assert(pairs_view(out@) == before + flatten_node(block_index, prefix.push(i), iv[i as int]));
        proof {
            lemma_flatten_seq_step(block_index, prefix, iv, i as int);
        }
        path.pop();
        assert(path@ =~= prefix);
        i = i + 1;
        assert(pairs_view(out@) =~= base + flatten_seq(block_index, prefix, iv, i as int));
    }
}

fn flatten_inline_vec(block_index: usize, inlines: &[Inline]) -> (r: Vec<(Cursor, char)>)
    ensures
        pairs_view(r@) == flatten_inlines(block_index, Seq::empty(), inlines_view(inlines@)),
        cells_fit(pairs_view(r@)),
{
    let mut out: Vec<(Cursor, char)> = Vec::new();
    let mut path: Vec<usize> = Vec::new();
    assert(path@ =~= Seq::<usize>::empty());
    assert(pairs_view(out@) =~= Seq::empty());
    walk_inlines(block_index, inlines, &mut path, &mut out);
    assert(pairs_view(out@) =~= flatten_inlines(block_index, Seq::empty(), inlines_view(inlines@)));
    out
}

pub fn flatten_inlines_for_edit(block_index: usize, inlines: &[Inline]) -> (r: Vec<(Cursor, char)>)
    ensures
        pairs_view(r@) == flatten_inlines(block_index, Seq::empty(), inlines_view(inlines@)),
        cells_fit(pairs_view(r@)),
{
    flatten_inline_vec(block_index, inlines)
}

/// All `(cursor, char)` in document order: same sequence as layout global indices.
pub fn flatten_document_chars(doc: &Document) -> (r: Vec<(Cursor, char)>)
    ensures
        pairs_view(r@) == doc_chars(doc@),
        cells_fit(pairs_view(r@)),
{
    let mut v: Vec<(Cursor, char)> = Vec::new();
    let mut bi: usize = 0;
    let ghost blocks = doc@.blocks;
    while bi < doc.blocks.len()
        invariant
            blocks == doc@.blocks,
            bi <= doc.blocks@.len(),
            pairs_view(v@) == flatten_blocks(blocks, bi as int),
            cells_fit(pairs_view(v@)),
        decreases doc.blocks@.len() - bi,
    {
        let ghost before = pairs_view(v@);
        match &doc.blocks[bi] {
            Block::Paragraph(inlines) => {
                let mut f = flatten_inline_vec(bi, inlines.as_slice());
                let ghost fv = pairs_view(f@);
                v.append(&mut f);
                assert(pairs_view(v@) =~= before + fv);
                assert(cells_fit(pairs_view(v@))) by {
                    assert forall|i: int| 0 <= i < pairs_view(v@).len() implies #[trigger] pairs_view(v@)[i].0.offset + char_utf8_len(pairs_view(v@)[i].1) <= isize::MAX by {
                        if i < before.len() {
                            assert(pairs_view(v@)[i] == before[i]);
                        } else {
                            assert(pairs_view(v@)[i] == fv[i - before.len()]);
                        }
                    }
                }
            },
            Block::Heading { content, .. } => {
                let mut f = flatten_inline_vec(bi, content.as_slice());
                let ghost fv = pairs_view(f@);
                v.append(&mut f);
                assert(pairs_view(v@) =~= before + fv);
                assert(cells_fit(pairs_view(v@))) by {
                    assert forall|i: int| 0 <= i < pairs_view(v@).len() implies #[trigger] pairs_view(v@)[i].0.offset + char_utf8_len(pairs_view(v@)[i].1) <= isize::MAX by {
                        if i < before.len() {
                            assert(pairs_view(v@)[i] == before[i]);
                        } else {
                            assert(pairs_view(v@)[i] == fv[i - before.len()]);
                        }
                    }
                }
            },
            Block::CodeBlock { text, .. } => {
                let empty: Vec<usize> = Vec::new();
                assert(empty@ =~= Seq::<usize>::empty());
                push_text_cells(bi, &empty, text.as_str(), &mut v);
            },
        }
        proof {
            lemma_flatten_blocks_step(blocks, bi as int);
        }
        bi = bi + 1;
    }
    v
}

pub fn advance_cursor_after_char(before: &Cursor, ch: char) -> (c: Cursor)
    requires
        before.offset + char_utf8_len(ch) <= usize::MAX,
    ensures
        c@ == after_char(before@, ch),
{
    let mut c = copy_cursor(before);
    c.offset = c.offset + char_len_utf8(ch);
    c
}


/// Horizontal padding inside the terminal (each side).
pub const H_PAD: usize = 1;

#[derive(Clone, Copy, Debug)]
pub struct LayoutConfig {
    /// Blank lines inserted between visual wrapped lines within a block.
    pub line_gap_lines: usize,
    /// Blank lines inserted between consecutive top-level blocks (not doubled per block).
    pub block_gap_lines: usize,
    pub code_margin: usize,
    /// Extra display columns after each space in the body (must match the painter).
    pub extra_word_spacing: usize,
    /// Extra display columns after each non-space character (must match the painter).
    pub extra_letter_spacing: usize,
}

/// The default layout: single-spaced, a one-column code margin, no extra spacing.
pub open spec fn default_layout_config() -> LayoutConfig {
    LayoutConfig {
        line_gap_lines: 0,
        block_gap_lines: 0,
        code_margin: 1,
        extra_word_spacing: 0,
        extra_letter_spacing: 0,
    }
}

impl Default for LayoutConfig {
    fn default() -> (c: Self)
        ensures
            c == default_layout_config(),
    {
        Self {
            line_gap_lines: 0,
            // Single-spaced by default: no extra blank rows between top-level blocks.
            block_gap_lines: 0,
            code_margin: 1,
            extra_word_spacing: 0,
            extra_letter_spacing: 0,
        }
    }
}

/// Display columns of `c` as `UnicodeWidthChar::width` (unicode-width) reports
/// them: `None` for a control character.
pub uninterp spec fn unicode_char_width(c: char) -> Option<usize>;

/// `UnicodeWidthChar::width` (unicode-width). Its source gives width 1 to the
/// printable ASCII chars `' '..='~'`, no width to the control chars below
/// U+0020 and in U+007F..U+009F, and otherwise reads a `u8` table entry.
#[verifier::external_body]
fn char_display_width(c: char) -> (r: Option<usize>)
    ensures
        r == unicode_char_width(c),
        0x20 <= (c as u32) < 0x7f ==> r == Some(1usize),
        (c as u32) < 0x20 || (0x7f <= (c as u32) < 0xa0) ==> r is None,
        r matches Some(w) ==> w <= 255,
{
    unicode_width::UnicodeWidthChar::width(c)
}

/// Columns that char `ch` takes in a laid-out row, spacing included.
pub open spec fn cell_width(ch: char, cfg: LayoutConfig) -> int {
    (match unicode_char_width(ch) {
        Some(w) => w as int,
        None => 0int,
    }) + if ch == ' ' {
        cfg.extra_word_spacing as int
    } else {
        cfg.extra_letter_spacing as int
    }
}

/// The configured spacing leaves room for the widest char in `usize`.
pub open spec fn spacing_fits(cfg: LayoutConfig) -> bool {
    &&& cfg.extra_word_spacing + 255 <= usize::MAX
    &&& cfg.extra_letter_spacing + 255 <= usize::MAX
}

/// Columns of a row of cells.
pub open spec fn row_width(row: Seq<(CursorView, char)>, cfg: LayoutConfig) -> int
    decreases row.len(),
{
    if row.len() == 0 {
        0
    } else {
        row_width(row.drop_last(), cfg) + cell_width(row.last().1, cfg)
    }
}

/// Greedy wrapping of a stream of cells into rows: a cell goes on the current
/// row unless the row already has cells and the cell would take it past `limit`.
pub open spec fn wrap_rows(stream: Seq<(CursorView, char)>, cfg: LayoutConfig, limit: int) -> Seq<
    Seq<(CursorView, char)>,
>
    decreases stream.len(),
{
    if stream.len() == 0 {
        seq![Seq::empty()]
    } else {
        let rows = wrap_rows(stream.drop_last(), cfg, limit);
        let cur = rows.last();
        let x = stream.last();
        if row_width(cur, cfg) + cell_width(x.1, cfg) > limit && cur.len() > 0 {
            rows.push(seq![x])
        } else {
            rows.update(rows.len() - 1, cur.push(x))
        }
    }
}

/// Shape of a laid-out line: leading blank columns, prefix text, cells, and
/// the cursor of an empty block on its only line.
#[verifier::ext_equal]
pub struct LineShape {
    pub gutter: usize,
    pub prefix: Seq<char>,
    pub cells: Seq<(CursorView, char)>,
    pub empty_start_cursor: Option<CursorView>,
}

pub open spec fn blank_line() -> LineShape {
    LineShape {
        gutter: 0,
        prefix: Seq::empty(),
        cells: Seq::empty(),
        empty_start_cursor: None,
    }
}

pub open spec fn blank_lines(n: nat) -> Seq<LineShape> {
    Seq::new(n, |i: int| blank_line())
}

/// Lines of the complete rows of a block: each row followed by `gap` blank lines.
pub open spec fn rows_with_gaps(
    rows: Seq<Seq<(CursorView, char)>>,
    gutter: usize,
    first_prefix: Seq<char>,
    cont_prefix: Seq<char>,
    gap: nat,
) -> Seq<LineShape>
    decreases rows.len(),
{
    if rows.len() == 0 {
        Seq::empty()
    } else {
        rows_with_gaps(rows.drop_last(), gutter, first_prefix, cont_prefix, gap).push(
            LineShape {
                gutter,
                prefix: if rows.len() == 1 {
                    first_prefix
                } else {
                    cont_prefix
                },
                cells: rows.last(),
                empty_start_cursor: None,
            },
        ) + blank_lines(gap)
    }
}

/// Lines of a block from its rows: the complete rows with their gap lines,
/// then the last row, which carries `empty_start`.
pub open spec fn rows_lines(
    rows: Seq<Seq<(CursorView, char)>>,
    gutter: usize,
    first_prefix: Seq<char>,
    cont_prefix: Seq<char>,
    gap: nat,
    empty_start: Option<CursorView>,
) -> Seq<LineShape> {
    rows_with_gaps(rows.drop_last(), gutter, first_prefix, cont_prefix, gap).push(
        LineShape {
            gutter,
            prefix: if rows.len() == 1 {
                first_prefix
            } else {
                cont_prefix
            },
            cells: rows.last(),
            empty_start_cursor: empty_start,
        },
    )
}

/// Lines of one block whose cells are `stream`, wrapped at `limit` columns.
pub open spec fn stream_lines(
    stream: Seq<(CursorView, char)>,
    cfg: LayoutConfig,
    limit: int,
    gutter: usize,
    first_prefix: Seq<char>,
    cont_prefix: Seq<char>,
    empty_start: Option<CursorView>,
) -> Seq<LineShape> {
    rows_lines(
        wrap_rows(stream, cfg, limit),
        gutter,
        first_prefix,
        cont_prefix,
        cfg.line_gap_lines as nat,
        empty_start,
    )
}

/// `n` spaces.
pub open spec fn spaces(n: nat) -> Seq<char> {
    Seq::new(n, |i: int| ' ')
}

/// Canonical cursor at the start of block `bi` (used for blocks without chars).
pub open spec fn block_start(doc: DocumentView, bi: usize) -> CursorView {
    normalized(CursorView { block_index: bi, inline_path: Seq::empty(), offset: 0 }, doc)
}

/// Lines of block `bi` of `doc` at inner width `inner`.
pub open spec fn block_lines(doc: DocumentView, bi: usize, inner: int, cfg: LayoutConfig) -> Seq<
    LineShape,
> {
    let b = doc.blocks[bi as int];
    let stream = flatten_block(bi, b);
    let esc = if stream.len() == 0 {
        Some(block_start(doc, bi))
    } else {
        None
    };
    match b {
        BlockView::CodeBlock { .. } => {
            let margin = if cfg.code_margin > inner {
                inner
            } else {
                cfg.code_margin as int
            };
            stream_lines(
                stream,
                cfg,
                inner - margin,
                margin as usize,
                spaces(margin as nat),
                spaces(margin as nat),
                esc,
            )
        },
        _ => stream_lines(stream, cfg, inner, 0, Seq::empty(), Seq::empty(), esc),
    }
}

/// Lines of the first `n` blocks, with `block_gap_lines` blank lines between blocks.
pub open spec fn blocks_lines(doc: DocumentView, n: int, inner: int, cfg: LayoutConfig) -> Seq<
    LineShape,
>
    decreases n,
{
    if n <= 0 || n > doc.blocks.len() {
        Seq::empty()
    } else {
        blocks_lines(doc, n - 1, inner, cfg) + (if n > 1 {
            blank_lines(cfg.block_gap_lines as nat)
        } else {
            Seq::empty()
        }) + block_lines(doc, (n - 1) as usize, inner, cfg)
    }
}

/// Content width inside the horizontal padding (at least one column).
pub open spec fn inner_width(width: u16) -> int {
    if width as int - 2 * H_PAD >= 1 {
        width as int - 2 * H_PAD
    } else {
        1
    }
}

/// Shapes of the lines of `doc` laid out at terminal width `width`.
pub open spec fn layout_shapes(doc: DocumentView, width: u16, cfg: LayoutConfig) -> Seq<LineShape> {
    let ls = blocks_lines(doc, doc.blocks.len() as int, inner_width(width), cfg);
    if ls.len() == 0 {
        seq![blank_line()]
    } else {
        ls
    }
}

/// One displayed character: cursor before `ch`, stable document-order index (same as flatten order).
pub type LaidCell = (Cursor, char, usize);

/// One visual row: leading blank columns (`gutter`) then `cells` (cursor before each char).
#[derive(Clone, Debug)]
pub struct LaidOutLine {
    pub row: usize,
    pub gutter: usize,
    pub prefix: String,
    pub cells: Vec<LaidCell>,
    /// When `cells` is empty but this row is the start of a block with no characters
    /// (e.g. empty paragraph), this is the canonical `Cursor` after `Cursor::normalize`.
    pub empty_start_cursor: Option<Cursor>,
}

#[derive(Clone, Debug)]
pub struct LaidOutDocument {
    pub lines: Vec<LaidOutLine>,
}

/// Model of a laid-out line.
#[verifier::ext_equal]
pub struct LineView {
    pub row: usize,
    pub gutter: usize,
    pub prefix: Seq<char>,
    pub cells: Seq<(CursorView, char, usize)>,
    pub empty_start_cursor: Option<CursorView>,
}

pub open spec fn opt_cursor_view(c: Option<Cursor>) -> Option<CursorView> {
    match c {
        Some(x) => Some(x@),
        None => None,
    }
}

pub open spec fn laid_cells_view(v: Seq<LaidCell>) -> Seq<(CursorView, char, usize)> {
    Seq::new(v.len(), |i: int| (v[i].0@, v[i].1, v[i].2))
}

impl View for LaidOutLine {
    type V = LineView;

    open spec fn view(&self) -> LineView {
        LineView {
            row: self.row,
            gutter: self.gutter,
            prefix: self.prefix@,
            cells: laid_cells_view(self.cells@),
            empty_start_cursor: opt_cursor_view(self.empty_start_cursor),
        }
    }
}

impl View for LaidOutDocument {
    type V = Seq<LineView>;

    open spec fn view(&self) -> Seq<LineView> {
        Seq::new(self.lines@.len(), |i: int| self.lines@[i]@)
    }
}

/// Cursor and char of each cell of a line (global indices dropped).
pub open spec fn cell_pairs(cells: Seq<(CursorView, char, usize)>) -> Seq<(CursorView, char)> {
    Seq::new(cells.len(), |i: int| (cells[i].0, cells[i].1))
}

/// Shape of a laid-out line.
pub open spec fn shape_of(l: LineView) -> LineShape {
    LineShape {
        gutter: l.gutter,
        prefix: l.prefix,
        cells: cell_pairs(l.cells),
        empty_start_cursor: l.empty_start_cursor,
    }
}

/// Number of cells on the lines before line `i`.
pub open spec fn cells_before(shapes: Seq<LineShape>, i: int) -> int
    decreases i,
{
    if i <= 0 {
        0
    } else {
        cells_before(shapes, i - 1) + shapes[i - 1].cells.len()
    }
}

/// `lines` is the layout of the shapes: rows number the lines, and global
/// indices number the cells in order.
pub open spec fn lines_match(lines: Seq<LineView>, shapes: Seq<LineShape>) -> bool {
    &&& lines.len() == shapes.len()
    &&& forall|i: int|
        0 <= i < lines.len() ==> {
            &&& (#[trigger] lines[i]).row == i
            &&& shape_of(lines[i]) == shapes[i]
            &&& forall|k: int|
                0 <= k < lines[i].cells.len() ==> (#[trigger] lines[i].cells[k]).2 == cells_before(
                    shapes,
                    i,
                ) + k
        }
}

/// Column arithmetic on the lines stays within `usize`, and every cell can be
/// advanced past its char.
pub open spec fn laid_fits(lines: Seq<LineView>) -> bool {
    forall|i: int|
        0 <= i < lines.len() ==> {
            &&& (#[trigger] lines[i]).gutter + lines[i].cells.len() + 1 <= usize::MAX
            &&& forall|k: int|
                0 <= k < lines[i].cells.len() ==> (#[trigger] lines[i].cells[k]).0.offset
                    + char_utf8_len(lines[i].cells[k].1) <= isize::MAX
        }
}


/// The document's char count leaves room in `usize` for display columns.
pub open spec fn doc_fits(doc: DocumentView) -> bool {
    doc_chars(doc).len() + 65536 <= usize::MAX
}

pub proof fn lemma_cells_before_concat(a: Seq<LineShape>, b: Seq<LineShape>, j: int)
    requires
        0 <= j <= b.len(),
    ensures
        cells_before(a + b, a.len() + j) == cells_before(a, a.len() as int) + cells_before(b, j),
    decreases j,
{
    if j > 0 {
        lemma_cells_before_concat(a, b, j - 1);
        assert((a + b)[a.len() + j - 1] == b[j - 1]);
    } else {
        lemma_cells_before_prefix(a, b, a.len() as int);
    }
}

pub proof fn lemma_cells_before_prefix(a: Seq<LineShape>, b: Seq<LineShape>, i: int)
    requires
        0 <= i <= a.len(),
    ensures
        cells_before(a + b, i) == cells_before(a, i),
    decreases i,
{
    if i > 0 {
        lemma_cells_before_prefix(a, b, i - 1);
        assert((a + b)[i - 1] == a[i - 1]);
    }
}

pub proof fn lemma_cells_before_blanks(n: nat, j: int)
    requires
        0 <= j <= n,
    ensures
        cells_before(blank_lines(n), j) == 0,
    decreases j,
{
    if j > 0 {
        lemma_cells_before_blanks(n, j - 1);
    }
}

pub proof fn lemma_cells_before_bound(s: Seq<LineShape>, i: int, j: int)
    requires
        0 <= i <= j <= s.len(),
    ensures
        cells_before(s, i) <= cells_before(s, j),
        i < j ==> cells_before(s, i) + s[i].cells.len() <= cells_before(s, j),
    decreases j - i,
{
    if i < j {
        lemma_cells_before_bound(s, i, j - 1);
    }
}

/// Pushes a blank line with row number `*row`.
fn push_blank(lines: &mut Vec<LaidOutLine>, row: &mut usize)
    requires
        *old(row) < usize::MAX,
    ensures
        laid_fits(lines_view(old(lines)@)) ==> laid_fits(lines_view(final(lines)@)),
        final(lines)@ == old(lines)@.push(final(lines)@.last()),
        final(lines)@.last()@ == (LineView {
            row: *old(row),
            gutter: 0,
            prefix: Seq::empty(),
            cells: Seq::empty(),
            empty_start_cursor: None,
        }),
        *final(row) == *old(row) + 1,
{
    let cells: Vec<LaidCell> = Vec::new();
    assert(laid_cells_view(cells@) =~= Seq::empty());
    lines.push(
        LaidOutLine {
            row: *row,
            gutter: 0,
            prefix: String::new(),
            cells,
            empty_start_cursor: None,
        },
    );
    assert(lines_view(lines@) =~= lines_view(old(lines)@).push(lines@.last()@));
    *row = *row + 1;
}

/// Columns that `ch` takes (see `cell_width`).
fn cell_layout_width(ch: char, cfg: &LayoutConfig) -> (w: usize)
    requires
        spacing_fits(*cfg),
    ensures
        w == cell_width(ch, *cfg),
{
    let base = match char_display_width(ch) {
        Some(w) => w,
        None => 0,
    };
    base + if ch == ' ' {
        cfg.extra_word_spacing
    } else {
        cfg.extra_letter_spacing
    }
}

pub proof fn lemma_row_width_nonneg(row: Seq<(CursorView, char)>, cfg: LayoutConfig)
    ensures
        row_width(row, cfg) >= 0,
    decreases row.len(),
{
    if row.len() > 0 {
        lemma_row_width_nonneg(row.drop_last(), cfg);
    }
}

/// Greedy wrapping of `stream` into rows (see `wrap_rows`).
fn wrap_into_rows(stream: &Vec<(Cursor, char)>, cfg: &LayoutConfig, limit: usize) -> (rows: Vec<
    Vec<(Cursor, char)>,
>)
    requires
        spacing_fits(*cfg),
        cells_fit(pairs_view(stream@)),
    ensures
        rows@.len() >= 1,
        forall|j: int|
            0 <= j < rows@.len() ==> cells_fit(pairs_view(#[trigger] rows@[j]@)) && rows@[j]@.len()
                <= stream@.len(),
        forall|j: int|
            0 <= j < rows@.len() ==> pairs_view(#[trigger] rows@[j]@) == wrap_rows(
                pairs_view(stream@),
                *cfg,
                limit as int,
            )[j],
        rows@.len() == wrap_rows(pairs_view(stream@), *cfg, limit as int).len(),
{
    let ghost sv = pairs_view(stream@);
    let mut done: Vec<Vec<(Cursor, char)>> = Vec::new();
    let mut cur: Vec<(Cursor, char)> = Vec::new();
    let mut used: usize = 0;
    let mut i: usize = 0;
    let n = stream.len();
    assert(sv.take(0) =~= Seq::<(CursorView, char)>::empty());
    assert(pairs_view(cur@) =~= Seq::<(CursorView, char)>::empty());
    while i < n
        invariant
            n == sv.len(),
            i <= n,
            spacing_fits(*cfg),
            sv == pairs_view(stream@),
            done@.len() + 1 == wrap_rows(sv.take(i as int), *cfg, limit as int).len(),
            forall|j: int|
                0 <= j < done@.len() ==> pairs_view(#[trigger] done@[j]@) == wrap_rows(
                    sv.take(i as int),
                    *cfg,
                    limit as int,
                )[j],
            pairs_view(cur@) == wrap_rows(sv.take(i as int), *cfg, limit as int).last(),
            cells_fit(sv),
            cells_fit(pairs_view(cur@)),
            cur@.len() <= i,
            forall|j: int|
                0 <= j < done@.len() ==> cells_fit(pairs_view(#[trigger] done@[j]@)) && done@[j]@.len()
                    <= i,
            used == row_width(pairs_view(cur@), *cfg),
            used <= limit || cur@.len() == 1,
            cur@.len() == 0 ==> used == 0,
        decreases n - i,
    {
        let c = copy_cursor(&stream[i].0);
        let ch = stream[i].1;
        let ghost x = (c@, ch);
        assert(x == sv[i as int]);
        let ghost rows_i = wrap_rows(sv.take(i as int), *cfg, limit as int);
        assert(sv.take(i + 1).drop_last() =~= sv.take(i as int));
        assert(sv.take(i + 1).last() == x);
        let w = cell_layout_width(ch, cfg);
        proof {
            lemma_row_width_nonneg(pairs_view(cur@), *cfg);
            assert(x.0.offset + char_utf8_len(x.1) <= isize::MAX);
        }
        if (w > limit || used > limit - w) && cur.len() > 0 {
            done.push(cur);
            cur = Vec::new();
            used = 0;
            let ghost pc = pairs_view(cur@);
            cur.push((c, ch));
            assert(pairs_view(cur@) =~= pc.push(x));
            assert(pc =~= Seq::<(CursorView, char)>::empty());
            assert(pairs_view(cur@).drop_last() =~= Seq::<(CursorView, char)>::empty());
            assert(pairs_view(cur@).last() == x);
            assert(row_width(Seq::<(CursorView, char)>::empty(), *cfg) == 0);
            assert(row_width(pairs_view(cur@).drop_last(), *cfg) == 0);
            assert(row_width(pairs_view(cur@), *cfg) == w);
            assert(cells_fit(pairs_view(cur@))) by {
                assert forall|q: int| 0 <= q < pairs_view(cur@).len() implies #[trigger] pairs_view(cur@)[q].0.offset + char_utf8_len(pairs_view(cur@)[q].1) <= isize::MAX by {
                    assert(pairs_view(cur@)[q] == x);
                }
            }
            used = w;
        } else {
            let ghost pc = pairs_view(cur@);
            cur.push((c, ch));
            assert(pairs_view(cur@) =~= pc.push(x));
            assert(pairs_view(cur@).drop_last() =~= pc);
            assert(pairs_view(cur@).last() == x);
            assert(row_width(pairs_view(cur@), *cfg) == row_width(pc, *cfg) + w);
            assert(cells_fit(pairs_view(cur@))) by {
                assert forall|q: int| 0 <= q < pairs_view(cur@).len() implies #[trigger] pairs_view(cur@)[q].0.offset + char_utf8_len(pairs_view(cur@)[q].1) <= isize::MAX by {
                    if q < pc.len() {
                        assert(pairs_view(cur@)[q] == pc[q]);
                    } else {
                        assert(pairs_view(cur@)[q] == x);
                    }
                }
            }
            used = used + w;
        }
        i = i + 1;
    }
    done.push(cur);
    assert(sv.take(n as int) =~= sv);
    done
}


/// Lines `start..start + shapes.len()` of `lines` lay out `shapes`, with rows
/// counted from `row0` and global cell indices from `g0`.
pub open spec fn segment_matches(
    lines: Seq<LineView>,
    start: int,
    shapes: Seq<LineShape>,
    row0: int,
    g0: int,
) -> bool {
    &&& 0 <= start
    &&& lines.len() >= start + shapes.len()
    &&& forall|j: int|
        0 <= j < shapes.len() ==> {
            &&& (#[trigger] lines[start + j]).row == row0 + j
            &&& shape_of(lines[start + j]) == shapes[j]
            &&& forall|k: int|
                0 <= k < lines[start + j].cells.len() ==> (#[trigger] lines[start + j].cells[k]).2
                    == g0 + cells_before(shapes, j) + k
        }
}

pub proof fn lemma_segment_concat(
    lines: Seq<LineView>,
    start: int,
    a: Seq<LineShape>,
    b: Seq<LineShape>,
    row0: int,
    g0: int,
)
    requires
        segment_matches(lines, start, a, row0, g0),
        segment_matches(
            lines,
            start + a.len(),
            b,
            row0 + a.len(),
            g0 + cells_before(a, a.len() as int),
        ),
    ensures
        segment_matches(lines, start, a + b, row0, g0),
{
    assert forall|j: int| 0 <= j < (a + b).len() implies {
        &&& (#[trigger] lines[start + j]).row == row0 + j
        &&& shape_of(lines[start + j]) == (a + b)[j]
        &&& forall|k: int|
            0 <= k < lines[start + j].cells.len() ==> (#[trigger] lines[start + j].cells[k]).2 == g0
                + cells_before(a + b, j) + k
    } by {
        if j < a.len() {
            lemma_cells_before_prefix(a, b, j);
        } else {
            let jb = j - a.len();
            assert(lines[start + a.len() + jb] == lines[start + j]);
            lemma_cells_before_concat(a, b, jb);
        }
    }
}

pub proof fn lemma_segment_extend(lines: Seq<LineView>, more: Seq<LineView>, start: int, shapes: Seq<LineShape>, row0: int, g0: int)
    requires
        segment_matches(lines, start, shapes, row0, g0),
    ensures
        segment_matches(lines + more, start, shapes, row0, g0),
{
    assert forall|j: int| 0 <= j < shapes.len() implies #[trigger] (lines + more)[start + j] == lines[start + j] by {}
}

/// Appends `n` blank lines, numbering their rows from `*row`.
fn push_blanks(lines: &mut Vec<LaidOutLine>, row: &mut usize, n: usize)
    requires
        *old(row) + n <= usize::MAX,
    ensures
        laid_fits(lines_view(old(lines)@)) ==> laid_fits(lines_view(final(lines)@)),
        final(lines)@.len() == old(lines)@.len() + n,
        forall|i: int| 0 <= i < old(lines)@.len() ==> final(lines)@[i] == old(lines)@[i],
        segment_matches(
            Seq::new(final(lines)@.len(), |i: int| final(lines)@[i]@),
            old(lines)@.len() as int,
            blank_lines(n as nat),
            *old(row) as int,
            0,
        ),
        *final(row) == *old(row) + n,
{
    let ghost start = lines@.len();
    let ghost row0 = *row;
    let mut t: usize = 0;
    while t < n
        invariant
            t <= n,
            start + t == lines@.len(),
            *row == row0 + t,
            row0 + n <= usize::MAX,
            forall|i: int| 0 <= i < start ==> lines@[i] == old(lines)@[i],
            start == old(lines)@.len(),
            laid_fits(lines_view(old(lines)@)) ==> laid_fits(lines_view(lines@)),
            forall|j: int|
                0 <= j < t ==> (#[trigger] lines@[start + j])@ == (LineView {
                    row: (row0 + j) as usize,
                    gutter: 0,
                    prefix: Seq::empty(),
                    cells: Seq::empty(),
                    empty_start_cursor: None,
                }),
        decreases n - t,
    {
        push_blank(lines, row);
        t = t + 1;
    }
    let ghost lv = Seq::new(lines@.len(), |i: int| lines@[i]@);
    assert forall|j: int| 0 <= j < n implies {
        &&& (#[trigger] lv[start + j]).row == row0 + j
        &&& shape_of(lv[start + j]) == blank_lines(n as nat)[j]
    } by {
        assert(lv[start + j] == lines@[start + j]@);
        assert(cell_pairs(Seq::<(CursorView, char, usize)>::empty()) =~= Seq::empty());
    }
}


pub proof fn lemma_blank_segment_any_g(lines: Seq<LineView>, start: int, n: nat, row0: int, g1: int, g2: int)
    requires
        segment_matches(lines, start, blank_lines(n), row0, g1),
    ensures
        segment_matches(lines, start, blank_lines(n), row0, g2),
{
    assert forall|j: int| 0 <= j < n implies (#[trigger] lines[start + j]).cells.len() == 0 by {
        assert(cell_pairs(lines[start + j].cells).len() == 0);
    }
}

/// Cells of `row` numbered with global indices from `g0`.
pub open spec fn numbered(row: Seq<(CursorView, char)>, g0: int) -> Seq<(CursorView, char, usize)> {
    Seq::new(row.len(), |k: int| (row[k].0, row[k].1, (g0 + k) as usize))
}

fn numbered_cells(row: &Vec<(Cursor, char)>, g0: usize) -> (r: Vec<LaidCell>)
    requires
        g0 + row@.len() <= usize::MAX,
    ensures
        laid_cells_view(r@) == numbered(pairs_view(row@), g0 as int),
{
    let mut out: Vec<LaidCell> = Vec::new();
    let mut k: usize = 0;
    while k < row.len()
        invariant
            k <= row@.len(),
            g0 + row@.len() <= usize::MAX,
            laid_cells_view(out@) == numbered(pairs_view(row@), g0 as int).take(k as int),
        decreases row@.len() - k,
    {
        let c = copy_cursor(&row[k].0);
        let ghost prev = laid_cells_view(out@);
        out.push((c, row[k].1, g0 + k));
        assert(laid_cells_view(out@) =~= prev.push(numbered(pairs_view(row@), g0 as int)[k as int]));
        k = k + 1;
        assert(laid_cells_view(out@) =~= numbered(pairs_view(row@), g0 as int).take(k as int));
    }
    assert(numbered(pairs_view(row@), g0 as int).take(k as int) =~= numbered(
        pairs_view(row@),
        g0 as int,
    ));
    out
}

pub open spec fn lines_view(v: Seq<LaidOutLine>) -> Seq<LineView> {
    Seq::new(v.len(), |i: int| v[i]@)
}

/// Appends one content line laying out `row` with global indices from `*next_global`.
fn push_content_line(
    row_cells: &Vec<(Cursor, char)>,
    gutter: usize,
    prefix: String,
    empty_start: Option<Cursor>,
    next_global: &mut usize,
    lines: &mut Vec<LaidOutLine>,
    row: &mut usize,
)
    requires
        *old(row) + 1 <= usize::MAX,
        *old(next_global) + row_cells@.len() <= usize::MAX,
        gutter + row_cells@.len() + 1 <= usize::MAX,
        cells_fit(pairs_view(row_cells@)),
        laid_fits(lines_view(old(lines)@)),
    ensures
        laid_fits(lines_view(final(lines)@)),
        lines_view(final(lines)@) == lines_view(old(lines)@).push(lines_view(final(lines)@).last()),
        segment_matches(
            lines_view(final(lines)@),
            old(lines)@.len() as int,
            seq![
                LineShape {
                    gutter,
                    prefix: prefix@,
                    cells: pairs_view(row_cells@),
                    empty_start_cursor: opt_cursor_view(empty_start),
                },
            ],
            *old(row) as int,
            *old(next_global) as int,
        ),
        *final(row) == *old(row) + 1,
        *final(next_global) == *old(next_global) + row_cells@.len(),
{
    let cells = numbered_cells(row_cells, *next_global);
    let ghost shape = LineShape {
        gutter,
        prefix: prefix@,
        cells: pairs_view(row_cells@),
        empty_start_cursor: opt_cursor_view(empty_start),
    };
    let line = LaidOutLine { row: *row, gutter, prefix, cells, empty_start_cursor: empty_start };
    assert(cell_pairs(line@.cells) =~= pairs_view(row_cells@));
    assert(shape_of(line@) == shape);
    let ghost before = lines_view(lines@);
    lines.push(line);
    assert(lines_view(lines@) =~= before.push(line@));
    *row = *row + 1;
    *next_global = *next_global + row_cells.len();
    let ghost lv = lines_view(lines@);
    let ghost st = old(lines)@.len() as int;
    assert(lv[st + 0] == line@);
    assert(cells_before(seq![shape], 0) == 0);
    assert(laid_fits(lv)) by {
        assert forall|i: int| 0 <= i < lv.len() implies {
            &&& (#[trigger] lv[i]).gutter + lv[i].cells.len() + 1 <= usize::MAX
            &&& forall|k: int|
                0 <= k < lv[i].cells.len() ==> (#[trigger] lv[i].cells[k]).0.offset
                    + char_utf8_len(lv[i].cells[k].1) <= isize::MAX
        } by {
            if i < st {
                assert(lv[i] == before[i]);
            } else {
                assert forall|k: int| 0 <= k < lv[i].cells.len() implies (#[trigger] lv[i].cells[k]).0.offset
                    + char_utf8_len(lv[i].cells[k].1) <= isize::MAX by {
                    assert(lv[i].cells[k].0 == pairs_view(row_cells@)[k].0);
                }
            }
        }
    }
}

/// Appends the lines of a block whose rows are `rows` (see `rows_lines`).
fn emit_rows(
    rows: &Vec<Vec<(Cursor, char)>>,
    gutter: usize,
    first_prefix: &String,
    cont_prefix: &String,
    empty_start: Option<Cursor>,
    gap: usize,
    next_global: &mut usize,
    lines: &mut Vec<LaidOutLine>,
    row: &mut usize,
)
    requires
        rows@.len() >= 1,
        laid_fits(lines_view(old(lines)@)),
        forall|j: int|
            0 <= j < rows@.len() ==> cells_fit(pairs_view(#[trigger] rows@[j]@)) && gutter
                + rows@[j]@.len() + 1 <= usize::MAX,
        *old(row) + rows_lines(
            Seq::new(rows@.len(), |j: int| pairs_view(rows@[j]@)),
            gutter,
            first_prefix@,
            cont_prefix@,
            gap as nat,
            opt_cursor_view(empty_start),
        ).len() <= usize::MAX,
        *old(next_global) + cells_before(
            rows_lines(
                Seq::new(rows@.len(), |j: int| pairs_view(rows@[j]@)),
                gutter,
                first_prefix@,
                cont_prefix@,
                gap as nat,
                opt_cursor_view(empty_start),
            ),
            rows_lines(
                Seq::new(rows@.len(), |j: int| pairs_view(rows@[j]@)),
                gutter,
                first_prefix@,
                cont_prefix@,
                gap as nat,
                opt_cursor_view(empty_start),
            ).len() as int,
        ) <= usize::MAX,
    ensures
        ({
            let shapes = rows_lines(
                Seq::new(rows@.len(), |j: int| pairs_view(rows@[j]@)),
                gutter,
                first_prefix@,
                cont_prefix@,
                gap as nat,
                opt_cursor_view(empty_start),
            );
            &&& laid_fits(lines_view(final(lines)@))
            &&& final(lines)@.len() == old(lines)@.len() + shapes.len()
            &&& forall|i: int|
                0 <= i < old(lines)@.len() ==> lines_view(final(lines)@)[i] == lines_view(
                    old(lines)@,
                )[i]
            &&& segment_matches(
                lines_view(final(lines)@),
                old(lines)@.len() as int,
                shapes,
                *old(row) as int,
                *old(next_global) as int,
            )
            &&& *final(row) == *old(row) + shapes.len()
            &&& *final(next_global) == *old(next_global) + cells_before(shapes, shapes.len() as int)
        }),
{
    let ghost rv = Seq::new(rows@.len(), |j: int| pairs_view(rows@[j]@));
    let ghost shapes = rows_lines(rv, gutter, first_prefix@, cont_prefix@, gap as nat, opt_cursor_view(empty_start));
    let ghost start = lines@.len() as int;
    let ghost row0 = *row as int;
    let ghost g0 = *next_global as int;
    let ghost old_lv = lines_view(lines@);
    let last = rows.len() - 1;
    let mut j: usize = 0;
    assert(rv.take(0) =~= Seq::<Seq<(CursorView, char)>>::empty());
    proof {
        lemma_rows_with_gaps_prefix_bound(rv.drop_last(), gutter, first_prefix@, cont_prefix@, gap as nat, 0, last as int);
    }
    while j < last
        invariant
            last == rows@.len() - 1,
            j <= last,
            rv == Seq::new(rows@.len(), |j: int| pairs_view(rows@[j]@)),
            shapes == rows_lines(rv, gutter, first_prefix@, cont_prefix@, gap as nat, opt_cursor_view(empty_start)),
            start == old(lines)@.len(),
            row0 + shapes.len() <= usize::MAX,
            g0 + cells_before(shapes, shapes.len() as int) <= usize::MAX,
            forall|i: int| 0 <= i < start ==> lines_view(lines@)[i] == old_lv[i],
            old_lv == lines_view(old(lines)@),
            laid_fits(lines_view(lines@)),
            forall|j: int|
                0 <= j < rows@.len() ==> cells_fit(pairs_view(#[trigger] rows@[j]@)) && gutter
                    + rows@[j]@.len() + 1 <= usize::MAX,
            lines@.len() == start + rows_with_gaps(rv.take(j as int), gutter, first_prefix@, cont_prefix@, gap as nat).len(),
            segment_matches(
                lines_view(lines@),
                start,
                rows_with_gaps(rv.take(j as int), gutter, first_prefix@, cont_prefix@, gap as nat),
                row0,
                g0,
            ),
            *row == row0 + rows_with_gaps(rv.take(j as int), gutter, first_prefix@, cont_prefix@, gap as nat).len(),
            *next_global == g0 + cells_before(
                rows_with_gaps(rv.take(j as int), gutter, first_prefix@, cont_prefix@, gap as nat),
                rows_with_gaps(rv.take(j as int), gutter, first_prefix@, cont_prefix@, gap as nat).len() as int,
            ),
        decreases last - j,
    {
        let ghost a = rows_with_gaps(rv.take(j as int), gutter, first_prefix@, cont_prefix@, gap as nat);
        let ghost content = LineShape {
            gutter,
            prefix: if j == 0 { first_prefix@ } else { cont_prefix@ },
            cells: rv[j as int],
            empty_start_cursor: None,
        };
        assert(rv.take(j + 1).drop_last() =~= rv.take(j as int));
        assert(rv.take(j + 1).last() == rv[j as int]);
        assert(rows_with_gaps(rv.take(j + 1), gutter, first_prefix@, cont_prefix@, gap as nat) == a.push(content) + blank_lines(gap as nat));
        proof {
            let q = rows_with_gaps(rv.drop_last(), gutter, first_prefix@, cont_prefix@, gap as nat);
            lemma_rows_with_gaps_prefix_bound(rv.drop_last(), gutter, first_prefix@, cont_prefix@, gap as nat, j + 1, last as int);
            assert(rv.drop_last().take(j + 1) =~= rv.take(j + 1));
            assert(rv.drop_last().take(last as int) =~= rv.drop_last());
            assert(shapes =~= q.push(shapes.last()));
            assert(q.is_prefix_of(shapes));
            lemma_shapes_prefix_bounds(shapes, a.push(content) + blank_lines(gap as nat), q);
            lemma_cells_before_push(a, content);
            lemma_cells_before_concat(a.push(content), blank_lines(gap as nat), gap as int);
            lemma_cells_before_blanks(gap as nat, gap as int);
        }
        let prefix = if j == 0 {
            first_prefix.clone()
        } else {
            cont_prefix.clone()
        };
        let ghost lv0 = lines_view(lines@);
        push_content_line(&rows[j], gutter, prefix, None, next_global, lines, row);
        proof {
            lemma_segment_extend(lv0, seq![lines_view(lines@).last()], start, a, row0, g0);
            assert(lines_view(lines@) =~= lv0 + seq![lines_view(lines@).last()]);
            lemma_segment_concat(lines_view(lines@), start, a, seq![content], row0, g0);
        }
        let ghost lv1 = lines_view(lines@);
        let ghost ac = a.push(content);
        assert(a + seq![content] =~= ac);
        push_blanks(lines, row, gap);
        proof {
            assert(lines_view(lines@) =~= lv1 + lines_view(lines@).subrange(lv1.len() as int, lines@.len() as int));
            lemma_segment_extend(lv1, lines_view(lines@).subrange(lv1.len() as int, lines@.len() as int), start, ac, row0, g0);
            lemma_blank_segment_any_g(lines_view(lines@), start + ac.len(), gap as nat, row0 + ac.len(), 0, g0 + cells_before(ac, ac.len() as int));
            lemma_segment_concat(lines_view(lines@), start, ac, blank_lines(gap as nat), row0, g0);
            lemma_cells_before_concat(ac, blank_lines(gap as nat), gap as int);
            lemma_cells_before_blanks(gap as nat, gap as int);
        }
        j = j + 1;
    }
    assert(rv.take(last as int) =~= rv.drop_last());
    let ghost a = rows_with_gaps(rv.drop_last(), gutter, first_prefix@, cont_prefix@, gap as nat);
    let ghost fin = LineShape {
        gutter,
        prefix: if rv.len() == 1 { first_prefix@ } else { cont_prefix@ },
        cells: rv.last(),
        empty_start_cursor: opt_cursor_view(empty_start),
    };
    assert(shapes == a.push(fin));
    let prefix = if rows.len() == 1 {
        first_prefix.clone()
    } else {
        cont_prefix.clone()
    };
    proof {
        lemma_cells_before_push(a, fin);
    }
    let ghost lv0 = lines_view(lines@);
    push_content_line(&rows[last], gutter, prefix, empty_start, next_global, lines, row);
    proof {
        lemma_segment_extend(lv0, seq![lines_view(lines@).last()], start, a, row0, g0);
        assert(lines_view(lines@) =~= lv0 + seq![lines_view(lines@).last()]);
        lemma_segment_concat(lines_view(lines@), start, a, seq![fin], row0, g0);
        assert(a + seq![fin] =~= shapes);
    }
}

pub proof fn lemma_rows_with_gaps_prefix_bound(
    rows: Seq<Seq<(CursorView, char)>>,
    gutter: usize,
    fp: Seq<char>,
    cp: Seq<char>,
    gap: nat,
    j: int,
    n: int,
)
    requires
        0 <= j <= n <= rows.len(),
    ensures
        rows_with_gaps(rows.take(j), gutter, fp, cp, gap).len() <= rows_with_gaps(rows.take(n), gutter, fp, cp, gap).len(),
        cells_before(rows_with_gaps(rows.take(j), gutter, fp, cp, gap), rows_with_gaps(rows.take(j), gutter, fp, cp, gap).len() as int)
            <= cells_before(rows_with_gaps(rows.take(n), gutter, fp, cp, gap), rows_with_gaps(rows.take(n), gutter, fp, cp, gap).len() as int),
        rows_with_gaps(rows.take(j), gutter, fp, cp, gap).is_prefix_of(rows_with_gaps(rows.take(n), gutter, fp, cp, gap)),
    decreases n - j,
{
    let a = rows_with_gaps(rows.take(j), gutter, fp, cp, gap);
    if j < n {
        lemma_rows_with_gaps_prefix_bound(rows, gutter, fp, cp, gap, j + 1, n);
        assert(rows.take(j + 1).drop_last() =~= rows.take(j));
        let b = rows_with_gaps(rows.take(j + 1), gutter, fp, cp, gap);
        let c = rows_with_gaps(rows.take(n), gutter, fp, cp, gap);
        assert(a.is_prefix_of(b));
        assert(a.is_prefix_of(c));
        lemma_cells_before_prefix_of(a, b);
    } else {
        assert(a.is_prefix_of(a));
    }
}

pub proof fn lemma_cells_before_nonneg(s: Seq<LineShape>, i: int)
    ensures
        cells_before(s, i) >= 0,
    decreases i,
{
    if i > 0 {
        lemma_cells_before_nonneg(s, i - 1);
    }
}

pub proof fn lemma_cells_before_push(a: Seq<LineShape>, x: LineShape)
    ensures
        cells_before(a.push(x), a.len() + 1int) == cells_before(a, a.len() as int) + x.cells.len(),
{
    assert(a.push(x) =~= a + seq![x]);
    lemma_cells_before_prefix(a, seq![x], a.len() as int);
}

pub proof fn lemma_cells_before_prefix_of(a: Seq<LineShape>, b: Seq<LineShape>)
    requires
        a.is_prefix_of(b),
    ensures
        cells_before(a, a.len() as int) <= cells_before(b, b.len() as int),
{
    lemma_cells_before_nonneg(b.skip(a.len() as int), b.len() - a.len());
    assert(b =~= a + b.skip(a.len() as int));
    lemma_cells_before_concat(a, b.skip(a.len() as int), b.len() - a.len());
}

pub proof fn lemma_shapes_prefix_bounds(shapes: Seq<LineShape>, p: Seq<LineShape>, q: Seq<LineShape>)
    requires
        p.is_prefix_of(q),
        q.is_prefix_of(shapes),
    ensures
        p.len() <= shapes.len(),
        cells_before(p, p.len() as int) <= cells_before(shapes, shapes.len() as int),
{
    lemma_cells_before_prefix_of(p, q);
    lemma_cells_before_prefix_of(q, shapes);
}


/// Lines of the layout fit the machine: their count, their cells, and their columns.
pub open spec fn layout_fits(doc: DocumentView, width: u16, cfg: LayoutConfig) -> bool {
    &&& doc_fits(doc)
    &&& spacing_fits(cfg)
    &&& layout_shapes(doc, width, cfg).len() + 1 <= usize::MAX
    &&& cells_before(
        layout_shapes(doc, width, cfg),
        layout_shapes(doc, width, cfg).len() as int,
    ) <= usize::MAX
}

pub proof fn lemma_segment_whole(lines: Seq<LineView>, shapes: Seq<LineShape>)
    requires
        segment_matches(lines, 0, shapes, 0, 0),
        lines.len() == shapes.len(),
    ensures
        lines_match(lines, shapes),
{
    assert forall|i: int| 0 <= i < lines.len() implies {
        &&& (#[trigger] lines[i]).row == i
        &&& shape_of(lines[i]) == shapes[i]
        &&& forall|k: int|
            0 <= k < lines[i].cells.len() ==> (#[trigger] lines[i].cells[k]).2 == cells_before(
                shapes,
                i,
            ) + k
    } by {
        assert(lines[0 + i] == lines[i]);
    }
}

pub proof fn lemma_flatten_blocks_len_mono(blocks: Seq<BlockView>, i: int, n: int)
    requires
        0 <= i <= n <= blocks.len(),
    ensures
        flatten_blocks(blocks, i).len() <= flatten_blocks(blocks, n).len(),
        i < n ==> flatten_block(i as usize, blocks[i]).len() <= flatten_blocks(blocks, n).len(),
    decreases n - i,
{
    if i < n {
        lemma_flatten_blocks_len_mono(blocks, i + 1, n);
    }
}

pub proof fn lemma_blocks_lines_prefix(doc: DocumentView, i: int, n: int, inner: int, cfg: LayoutConfig)
    requires
        0 <= i <= n <= doc.blocks.len(),
    ensures
        blocks_lines(doc, i, inner, cfg).is_prefix_of(blocks_lines(doc, n, inner, cfg)),
    decreases n - i,
{
    if i < n {
        lemma_blocks_lines_prefix(doc, i + 1, n, inner, cfg);
    }
}

/// Appends the lines of block `bi` to `lines`.
fn layout_block(
    doc: &Document,
    bi: usize,
    inner: usize,
    next_global: &mut usize,
    lines: &mut Vec<LaidOutLine>,
    row: &mut usize,
    cfg: &LayoutConfig,
)
    requires
        bi < doc@.blocks.len(),
        spacing_fits(*cfg),
        doc_fits(doc@),
        inner <= 65535,
        laid_fits(lines_view(old(lines)@)),
        *old(row) + block_lines(doc@, bi, inner as int, *cfg).len() <= usize::MAX,
        *old(next_global) + cells_before(
            block_lines(doc@, bi, inner as int, *cfg),
            block_lines(doc@, bi, inner as int, *cfg).len() as int,
        ) <= usize::MAX,
    ensures
        ({
            let shapes = block_lines(doc@, bi, inner as int, *cfg);
            &&& laid_fits(lines_view(final(lines)@))
            &&& final(lines)@.len() == old(lines)@.len() + shapes.len()
            &&& forall|i: int|
                0 <= i < old(lines)@.len() ==> lines_view(final(lines)@)[i] == lines_view(
                    old(lines)@,
                )[i]
            &&& segment_matches(
                lines_view(final(lines)@),
                old(lines)@.len() as int,
                shapes,
                *old(row) as int,
                *old(next_global) as int,
            )
            &&& *final(row) == *old(row) + shapes.len()
            &&& *final(next_global) == *old(next_global) + cells_before(shapes, shapes.len() as int)
        }),
{
    proof {
        lemma_flatten_blocks_len_mono(doc@.blocks, bi as int, doc@.blocks.len() as int);
    }
    match &doc.blocks[bi] {
        Block::Paragraph(inlines) => {
            wrap_inline_stream(doc, bi, inlines.as_slice(), inner, next_global, lines, row, cfg);
        },
        Block::Heading { content, .. } => {
            wrap_inline_stream(doc, bi, content.as_slice(), inner, next_global, lines, row, cfg);
        },
        Block::CodeBlock { text, .. } => {
            wrap_code_stream(doc, bi, text.as_str(), inner, cfg.code_margin, next_global, lines, row, cfg);
        },
    }
}

/// Canonical cursor at the start of a block without chars.
fn empty_block_cursor(doc: &Document, bi: usize) -> (c: Cursor)
    ensures
        c@ == block_start(doc@, bi),
{
    let mut c = Cursor { block_index: bi, inline_path: Vec::new(), offset: 0 };
    assert(c@.inline_path =~= Seq::<usize>::empty());
    c.normalize(doc);
    c
}

fn wrap_inline_stream(
    doc: &Document,
    block_index: usize,
    inlines: &[Inline],
    content_width: usize,
    next_global: &mut usize,
    lines: &mut Vec<LaidOutLine>,
    row: &mut usize,
    cfg: &LayoutConfig,
)
    requires
        block_index < doc@.blocks.len(),
        crate::cursor::block_inlines(doc@.blocks[block_index as int]) == Some(inlines_view(inlines@)),
        spacing_fits(*cfg),
        flatten_block(block_index, doc@.blocks[block_index as int]).len() + 65536 <= usize::MAX,
        laid_fits(lines_view(old(lines)@)),
        *old(row) + block_lines(doc@, block_index, content_width as int, *cfg).len() <= usize::MAX,
        *old(next_global) + cells_before(
            block_lines(doc@, block_index, content_width as int, *cfg),
            block_lines(doc@, block_index, content_width as int, *cfg).len() as int,
        ) <= usize::MAX,
    ensures
        ({
            let shapes = block_lines(doc@, block_index, content_width as int, *cfg);
            &&& laid_fits(lines_view(final(lines)@))
            &&& final(lines)@.len() == old(lines)@.len() + shapes.len()
            &&& forall|i: int|
                0 <= i < old(lines)@.len() ==> lines_view(final(lines)@)[i] == lines_view(
                    old(lines)@,
                )[i]
            &&& segment_matches(
                lines_view(final(lines)@),
                old(lines)@.len() as int,
                shapes,
                *old(row) as int,
                *old(next_global) as int,
            )
            &&& *final(row) == *old(row) + shapes.len()
            &&& *final(next_global) == *old(next_global) + cells_before(shapes, shapes.len() as int)
        }),
{
    let stream = flatten_inline_vec(block_index, inlines);
    let empty_start_cursor = if stream.len() == 0 {
        Some(empty_block_cursor(doc, block_index))
    } else {
        None
    };
    let rows = wrap_into_rows(&stream, cfg, content_width);
    let ghost rv = Seq::new(rows@.len(), |j: int| pairs_view(rows@[j]@));
    assert(rv =~= wrap_rows(pairs_view(stream@), *cfg, content_width as int));
    let first_prefix = String::new();
    let cont_prefix = String::new();
    assert(first_prefix@ =~= Seq::<char>::empty());
    emit_rows(
        &rows,
        0,
        &first_prefix,
        &cont_prefix,
        empty_start_cursor,
        cfg.line_gap_lines,
        next_global,
        lines,
        row,
    );
}

/// `n` spaces.
fn space_string(n: usize) -> (s: String)
    ensures
        s@ == spaces(n as nat),
{
    let mut s = String::new();
    let mut i: usize = 0;
    proof {
        reveal_strlit(" ");
    }
    while i < n
        invariant
            i <= n,
            s@ == spaces(i as nat),
            " "@ == seq![' '],
        decreases n - i,
    {
        s.append(" ");
        i = i + 1;
        assert(s@ =~= spaces(i as nat));
    }
    s
}

fn wrap_code_stream(
    doc: &Document,
    block_index: usize,
    text: &str,
    content_width: usize,
    code_margin: usize,
    next_global: &mut usize,
    lines: &mut Vec<LaidOutLine>,
    row: &mut usize,
    cfg: &LayoutConfig,
)
    requires
        block_index < doc@.blocks.len(),
        doc@.blocks[block_index as int] matches BlockView::CodeBlock { text: t, .. } && t == text@,
        code_margin == cfg.code_margin,
        content_width <= 65535,
        spacing_fits(*cfg),
        flatten_block(block_index, doc@.blocks[block_index as int]).len() + 65536 <= usize::MAX,
        laid_fits(lines_view(old(lines)@)),
        *old(row) + block_lines(doc@, block_index, content_width as int, *cfg).len() <= usize::MAX,
        *old(next_global) + cells_before(
            block_lines(doc@, block_index, content_width as int, *cfg),
            block_lines(doc@, block_index, content_width as int, *cfg).len() as int,
        ) <= usize::MAX,
    ensures
        ({
            let shapes = block_lines(doc@, block_index, content_width as int, *cfg);
            &&& laid_fits(lines_view(final(lines)@))
            &&& final(lines)@.len() == old(lines)@.len() + shapes.len()
            &&& forall|i: int|
                0 <= i < old(lines)@.len() ==> lines_view(final(lines)@)[i] == lines_view(
                    old(lines)@,
                )[i]
            &&& segment_matches(
                lines_view(final(lines)@),
                old(lines)@.len() as int,
                shapes,
                *old(row) as int,
                *old(next_global) as int,
            )
            &&& *final(row) == *old(row) + shapes.len()
            &&& *final(next_global) == *old(next_global) + cells_before(shapes, shapes.len() as int)
        }),
{
    let margin = if code_margin > content_width {
        content_width
    } else {
        code_margin
    };
    let mut stream: Vec<(Cursor, char)> = Vec::new();
    let empty: Vec<usize> = Vec::new();
    assert(empty@ =~= Seq::<usize>::empty());
    assert(pairs_view(stream@) =~= Seq::<(CursorView, char)>::empty());
    push_text_cells(block_index, &empty, text, &mut stream);
    assert(pairs_view(stream@) =~= text_cells(block_index, Seq::empty(), text@));
    let empty_start_cursor = if text.is_empty() {
        Some(empty_block_cursor(doc, block_index))
    } else {
        None
    };
    let rows = wrap_into_rows(&stream, cfg, content_width - margin);
    let ghost rv = Seq::new(rows@.len(), |j: int| pairs_view(rows@[j]@));
    assert(rv =~= wrap_rows(pairs_view(stream@), *cfg, content_width - margin));
    let first_prefix = space_string(margin);
    let cont_prefix = space_string(margin);
    emit_rows(
        &rows,
        margin,
        &first_prefix,
        &cont_prefix,
        empty_start_cursor,
        cfg.line_gap_lines,
        next_global,
        lines,
        row,
    );
}

/// The laid-out lines of `shapes`: rows numbered from 0, cells numbered in order.
pub open spec fn lines_of_shapes(shapes: Seq<LineShape>) -> Seq<LineView> {
    Seq::new(
        shapes.len(),
        |i: int|
            LineView {
                row: i as usize,
                gutter: shapes[i].gutter,
                prefix: shapes[i].prefix,
                cells: Seq::new(
                    shapes[i].cells.len(),
                    |k: int|
                        (
                            shapes[i].cells[k].0,
                            shapes[i].cells[k].1,
                            (cells_before(shapes, i) + k) as usize,
                        ),
                ),
                empty_start_cursor: shapes[i].empty_start_cursor,
            },
    )
}

/// The layout of `doc` at `width` under `cfg`.
pub open spec fn layout_view(doc: DocumentView, width: u16, cfg: LayoutConfig) -> Seq<LineView> {
    lines_of_shapes(layout_shapes(doc, width, cfg))
}

/// Lines that match `shapes` are exactly `lines_of_shapes(shapes)`.
pub proof fn lemma_lines_match_view(lines: Seq<LineView>, shapes: Seq<LineShape>)
    requires
        lines_match(lines, shapes),
    ensures
        lines == lines_of_shapes(shapes),
{
    let v = lines_of_shapes(shapes);
    assert forall|i: int| 0 <= i < lines.len() implies lines[i] == v[i] by {
        let l = lines[i];
        assert(shape_of(l) == shapes[i]);
        assert(cell_pairs(l.cells).len() == l.cells.len());
        assert forall|k: int| 0 <= k < l.cells.len() implies l.cells[k] == v[i].cells[k] by {
            assert(cell_pairs(l.cells)[k] == shapes[i].cells[k]);
            assert(l.cells[k].2 == cells_before(shapes, i) + k);
        }
        assert(l.cells =~= v[i].cells);
        assert(l =~= v[i]);
    }
    assert(lines =~= v);
}

pub fn layout_document(doc: &Document, width: u16, cfg: &LayoutConfig) -> (laid: LaidOutDocument)
    requires
        layout_fits(doc@, width, *cfg),
    ensures
        laid@ == layout_view(doc@, width, *cfg),
        lines_match(laid@, layout_shapes(doc@, width, *cfg)),
        laid_fits(laid@),
{
    let w = width as usize;
    let inner = if w >= 2 * H_PAD + 1 {
        w - 2 * H_PAD
    } else {
        1
    };
    assert(inner == inner_width(width));
    let mut lines: Vec<LaidOutLine> = Vec::new();
    let mut row: usize = 0;
    let mut next_global: usize = 0;
    let ghost all = blocks_lines(doc@, doc@.blocks.len() as int, inner as int, *cfg);
    let n = doc.blocks.len();
    let mut bi: usize = 0;
    assert(lines_view(lines@) =~= Seq::<LineView>::empty());
    proof {
        lemma_blocks_lines_prefix(doc@, 0, n as int, inner as int, *cfg);
        lemma_cells_before_prefix_of(blocks_lines(doc@, 0, inner as int, *cfg), all);
    }
    while bi < n
        invariant
            n == doc@.blocks.len(),
            bi <= n,
            inner == inner_width(width),
            inner <= 65535,
            layout_fits(doc@, width, *cfg),
            all == blocks_lines(doc@, n as int, inner as int, *cfg),
            all.len() == 0 ==> layout_shapes(doc@, width, *cfg) == seq![blank_line()],
            all.len() > 0 ==> layout_shapes(doc@, width, *cfg) == all,
            laid_fits(lines_view(lines@)),
            lines@.len() == blocks_lines(doc@, bi as int, inner as int, *cfg).len(),
            row == lines@.len(),
            segment_matches(lines_view(lines@), 0, blocks_lines(doc@, bi as int, inner as int, *cfg), 0, 0),
            next_global == cells_before(
                blocks_lines(doc@, bi as int, inner as int, *cfg),
                blocks_lines(doc@, bi as int, inner as int, *cfg).len() as int,
            ),
        decreases n - bi,
    {
        let ghost prev = blocks_lines(doc@, bi as int, inner as int, *cfg);
        let ghost gaps: Seq<LineShape> = if bi > 0 {
            blank_lines(cfg.block_gap_lines as nat)
        } else {
            Seq::empty()
        };
        let ghost blk = block_lines(doc@, bi, inner as int, *cfg);
        assert(blocks_lines(doc@, bi + 1, inner as int, *cfg) == prev + gaps + blk);
        proof {
            lemma_blocks_lines_prefix(doc@, bi + 1, n as int, inner as int, *cfg);
            lemma_cells_before_prefix_of(prev + gaps + blk, all);
            if all.len() == 0 {
                assert(false);
            }
            lemma_cells_before_concat(prev + gaps, blk, blk.len() as int);
            lemma_cells_before_concat(prev, gaps, gaps.len() as int);
            lemma_cells_before_nonneg(blk, blk.len() as int);
            if bi > 0 {
                lemma_cells_before_blanks(cfg.block_gap_lines as nat, cfg.block_gap_lines as int);
            }
        }
        let ghost lv0 = lines_view(lines@);
        if bi > 0 {
            push_blanks(&mut lines, &mut row, cfg.block_gap_lines);
            proof {
                assert(lines_view(lines@) =~= lv0 + lines_view(lines@).subrange(lv0.len() as int, lines@.len() as int));
                lemma_segment_extend(lv0, lines_view(lines@).subrange(lv0.len() as int, lines@.len() as int), 0, prev, 0, 0);
                lemma_blank_segment_any_g(lines_view(lines@), prev.len() as int, cfg.block_gap_lines as nat, prev.len() as int, 0, cells_before(prev, prev.len() as int));
                lemma_segment_concat(lines_view(lines@), 0, prev, gaps, 0, 0);
            }
        } else {
            assert(prev + gaps =~= prev);
        }
        let ghost lv1 = lines_view(lines@);
        layout_block(doc, bi, inner, &mut next_global, &mut lines, &mut row, cfg);
        proof {
            assert(lines_view(lines@) =~= lv1 + lines_view(lines@).subrange(lv1.len() as int, lines@.len() as int));
            lemma_segment_extend(lv1, lines_view(lines@).subrange(lv1.len() as int, lines@.len() as int), 0, prev + gaps, 0, 0);
            lemma_segment_concat(lines_view(lines@), 0, prev + gaps, blk, 0, 0);
        }
        bi = bi + 1;
    }
    if lines.len() == 0 {
        push_blank(&mut lines, &mut row);
        assert(cell_pairs(lines_view(lines@)[0].cells) =~= Seq::empty());
        assert(lines_view(lines@).len() == 1);
        assert(shape_of(lines_view(lines@)[0]) == blank_line());
        assert(seq![blank_line()][0] == blank_line());
        assert(cells_before(seq![blank_line()], 0) == 0);
        assert(lines_match(lines_view(lines@), seq![blank_line()]));
    } else {
        proof {
            lemma_segment_whole(lines_view(lines@), all);
        }
    }
    let laid = LaidOutDocument { lines };
    assert(laid@ =~= lines_view(laid.lines@));
    proof {
        lemma_lines_match_view(laid@, layout_shapes(doc@, width, *cfg));
    }
    laid
}


/// Index predicate: cell `i` starts at `c`.
pub open spec fn laid_cell_is(cells: Seq<(CursorView, char, usize)>, c: CursorView) -> spec_fn(int) -> bool {
    |i: int| cells[i].0 == c
}

/// Display column of cursor `c` on line `l`: before one of its cells, after
/// its last cell, or at the gutter of an empty block's line.
pub open spec fn line_col_of(l: LineView, c: CursorView) -> Option<usize> {
    let cells = l.cells;
    match first_index(cells.len() as int, laid_cell_is(cells, c)) {
        Some(i) => Some((l.gutter + i) as usize),
        None => if cells.len() > 0 && after_char(cells.last().0, cells.last().1) == c {
            Some((l.gutter + cells.len()) as usize)
        } else if cells.len() == 0 && l.empty_start_cursor == Some(c) {
            Some(l.gutter)
        } else {
            None
        },
    }
}

/// Index predicate: line `i` shows cursor `c`.
pub open spec fn line_shows(lines: Seq<LineView>, c: CursorView) -> spec_fn(int) -> bool {
    |i: int| line_col_of(lines[i], c) is Some
}

/// Row and column of cursor `c`: on the first line that shows it.
pub open spec fn row_col_of(lines: Seq<LineView>, c: CursorView) -> Option<(usize, usize)> {
    match first_index(lines.len() as int, line_shows(lines, c)) {
        Some(i) => Some((lines[i].row, line_col_of(lines[i], c)->0)),
        None => None,
    }
}

/// Index predicate: line `i` has row number `r`.
pub open spec fn row_is(lines: Seq<LineView>, r: usize) -> spec_fn(int) -> bool {
    |i: int| lines[i].row == r
}

/// Index of the first line with row number `r`.
pub open spec fn line_with_row(lines: Seq<LineView>, r: usize) -> Option<int> {
    first_index(lines.len() as int, row_is(lines, r))
}

/// Cursor shown at display position (`r`, `col`).
pub open spec fn cursor_at_row_col(lines: Seq<LineView>, r: usize, col: usize) -> Option<CursorView> {
    match line_with_row(lines, r) {
        None => None,
        Some(i) => {
            let l = lines[i];
            let g = l.gutter;
            if col < g {
                if l.cells.len() == 0 {
                    None
                } else {
                    Some(l.cells[0].0)
                }
            } else if l.cells.len() == 0 {
                if col == g {
                    l.empty_start_cursor
                } else {
                    None
                }
            } else if col - g >= l.cells.len() {
                Some(after_char(l.cells.last().0, l.cells.last().1))
            } else {
                Some(l.cells[col - g].0)
            }
        },
    }
}

/// Columns of the row of line `l`, gutter included.
pub open spec fn line_display_width(l: LineView, cfg: LayoutConfig) -> int {
    l.gutter + row_width(cell_pairs(l.cells), cfg)
}

/// Display widths of every line fit in `usize`.
pub open spec fn widths_fit(lines: Seq<LineView>, cfg: LayoutConfig) -> bool {
    &&& spacing_fits(cfg)
    &&& forall|i: int| 0 <= i < lines.len() ==> #[trigger] line_display_width(lines[i], cfg) <= usize::MAX
}

pub proof fn lemma_row_width_prefix(row: Seq<(CursorView, char)>, k: int, cfg: LayoutConfig)
    requires
        0 <= k <= row.len(),
    ensures
        0 <= row_width(row.take(k), cfg) <= row_width(row, cfg),
    decreases row.len() - k,
{
    lemma_row_width_nonneg(row.take(k), cfg);
    if k < row.len() {
        lemma_row_width_prefix(row, k + 1, cfg);
        assert(row.take(k + 1).drop_last() =~= row.take(k));
        assert(row.take(k + 1).last() == row[k]);
        assert(cell_width(row[k].1, cfg) >= 0);
    } else {
        assert(row.take(k) =~= row);
    }
}

/// Index of the first line with row number `r`.
fn find_line_with_row(laid: &LaidOutDocument, r: usize) -> (i: Option<usize>)
    ensures
        line_with_row(laid@, r) == match i {
            Some(j) => Some(j as int),
            None => None::<int>,
        },
        i matches Some(j) ==> j < laid.lines@.len() && laid@[j as int] == laid.lines@[j as int]@,
{
    let ghost lv = laid@;
    let ghost p = row_is(lv, r);
    let mut i: usize = 0;
    while i < laid.lines.len()
        invariant
            lv == laid@,
            lv.len() == laid.lines@.len(),
            p == row_is(lv, r),
            i <= lv.len(),
            first_index(i as int, p) is None,
        decreases lv.len() - i,
    {
        assert(lv[i as int] == laid.lines@[i as int]@);
        if laid.lines[i].row == r {
            assert(first_index(i + 1, p) == Some(i as int));
            proof {
                lemma_first_index_extends(i + 1, lv.len() as int, p);
            }
            return Some(i);
        }
        i = i + 1;
    }
    None
}

/// Index of the first cell of `line` that starts at `cursor`.
fn find_cell_of(line: &LaidOutLine, cursor: &Cursor) -> (i: Option<usize>)
    ensures
        first_index(line@.cells.len() as int, laid_cell_is(line@.cells, cursor@)) == match i {
            Some(j) => Some(j as int),
            None => None::<int>,
        },
        i matches Some(j) ==> j < line.cells@.len(),
{
    let ghost l = line@;
    let ghost q = laid_cell_is(l.cells, cursor@);
    let mut i: usize = 0;
    while i < line.cells.len()
        invariant
            l == line@,
            q == laid_cell_is(l.cells, cursor@),
            i <= l.cells.len(),
            first_index(i as int, q) is None,
        decreases l.cells.len() - i,
    {
        assert(l.cells[i as int].0 == line.cells@[i as int].0@);
        if cursor_eq(&line.cells[i].0, cursor) {
            assert(first_index(i + 1, q) == Some(i as int));
            proof {
                lemma_first_index_extends(i + 1, l.cells.len() as int, q);
            }
            return Some(i);
        }
        i = i + 1;
    }
    None
}

/// Display column of `cursor` on `line`, as `line_col_of` states it.
fn line_col(line: &LaidOutLine, cursor: &Cursor) -> (col: Option<usize>)
    requires
        line@.gutter + line@.cells.len() + 1 <= usize::MAX,
        line@.cells.len() > 0 ==> line@.cells.last().0.offset + char_utf8_len(line@.cells.last().1)
            <= isize::MAX,
    ensures
        col == line_col_of(line@, cursor@),
{
    let ghost l = line@;
    let g = line.gutter;
    match find_cell_of(line, cursor) {
        Some(i) => Some(g + i),
        None => {
            let n = line.cells.len();
            if n > 0 {
                assert(l.cells[n - 1].0 == line.cells@[n - 1].0@);
                let end = advance_cursor_after_char(&line.cells[n - 1].0, line.cells[n - 1].1);
                if cursor_eq(&end, cursor) {
                    Some(g + n)
                } else {
                    None
                }
            } else {
                match &line.empty_start_cursor {
                    Some(c0) => if cursor_eq(c0, cursor) {
                        Some(g)
                    } else {
                        None
                    },
                    None => None,
                }
            }
        },
    }
}

impl LaidOutDocument {
    pub fn total_rows(&self) -> (n: usize)
        ensures
            n == self@.len(),
    {
        self.lines.len()
    }

    pub fn display_width(&self, row: usize, cfg: &LayoutConfig) -> (w: usize)
        requires
            widths_fit(self@, *cfg),
        ensures
            w == match line_with_row(self@, row) {
                Some(i) => line_display_width(self@[i], *cfg),
                None => 0,
            },
    {
        match find_line_with_row(self, row) {
            None => 0,
            Some(i) => {
                let l = &self.lines[i];
                let ghost lv = self@[i as int];
                assert(lv == l@);
                let ghost cp = cell_pairs(lv.cells);
                let mut sum: usize = 0;
                let mut k: usize = 0;
                assert(line_display_width(self@[i as int], *cfg) <= usize::MAX);
                proof {
                    lemma_row_width_prefix(cp, cp.len() as int, *cfg);
                    assert(cp.take(0) =~= Seq::<(CursorView, char)>::empty());
                }
                while k < l.cells.len()
                    invariant
                        lv == l@,
                        cp == cell_pairs(lv.cells),
                        spacing_fits(*cfg),
                        k <= l.cells@.len(),
                        sum == row_width(cp.take(k as int), *cfg),
                        l.gutter + row_width(cp, *cfg) <= usize::MAX,
                    decreases l.cells@.len() - k,
                {
                    proof {
                        lemma_row_width_prefix(cp, k + 1, *cfg);
                        assert(cp.take(k + 1).drop_last() =~= cp.take(k as int));
                        assert(cp.take(k + 1).last() == cp[k as int]);
                        assert(cp[k as int].1 == l.cells@[k as int].1);
                    }
                    let w = cell_layout_width(l.cells[k].1, cfg);
                    sum = sum + w;
                    k = k + 1;
                }
                assert(cp.take(k as int) =~= cp);
                l.gutter + sum
            },
        }
    }
}

/// Display column is 0-based: `0..gutter` are virtual leading columns; `gutter..` index content.
pub fn cursor_to_row_col(_doc: &Document, laid: &LaidOutDocument, cursor: &Cursor) -> (r: Option<
    (usize, usize),
>)
    requires
        laid_fits(laid@),
    ensures
        r == row_col_of(laid@, cursor@),
{
    let ghost lv = laid@;
    let ghost c = cursor@;
    let ghost p = line_shows(lv, c);
    let mut li: usize = 0;
    while li < laid.lines.len()
        invariant
            lv == laid@,
            lv.len() == laid.lines@.len(),
            c == cursor@,
            p == line_shows(lv, c),
            laid_fits(lv),
            li <= lv.len(),
            first_index(li as int, p) is None,
        decreases lv.len() - li,
    {
        let line = &laid.lines[li];
        let ghost l = lv[li as int];
        assert(l == line@);
        proof {
            if l.cells.len() > 0 {
                assert(l.cells.last() == l.cells[l.cells.len() - 1]);
            }
        }
        let col = line_col(line, cursor);
        if let Some(cc) = col {
            assert(p(li as int));
            assert(first_index(li + 1, p) == Some(li as int));
            proof {
                lemma_first_index_extends(li + 1, lv.len() as int, p);
            }
            return Some((line.row, cc));
        }
        assert(!p(li as int));
        li = li + 1;
    }
    None
}

pub fn cursor_from_row_col(_doc: &Document, laid: &LaidOutDocument, row: usize, col: usize) -> (r:
    Option<Cursor>)
    requires
        laid_fits(laid@),
    ensures
        match cursor_at_row_col(laid@, row, col) {
            Some(c) => r matches Some(x) && x@ == c,
            None => r is None,
        },
{
    let li = match find_line_with_row(laid, row) {
        Some(i) => i,
        None => return None,
    };
    let line = &laid.lines[li];
    let ghost l = laid@[li as int];
    assert(l == line@);
    let g = line.gutter;
    if col < g {
        if line.cells.len() == 0 {
            return None;
        }
        assert(l.cells[0].0 == line.cells@[0].0@);
        return Some(copy_cursor(&line.cells[0].0));
    }
    if line.cells.len() == 0 {
        if col == g {
            return match &line.empty_start_cursor {
                Some(c) => Some(copy_cursor(c)),
                None => None,
            };
        }
        return None;
    }
    let idx = col - g;
    let n = line.cells.len();
    if idx >= n {
        assert(l.cells[n - 1].0 == line.cells@[n - 1].0@);
        return Some(advance_cursor_after_char(&line.cells[n - 1].0, line.cells[n - 1].1));
    }
    assert(l.cells[idx as int].0 == line.cells@[idx as int].0@);
    Some(copy_cursor(&line.cells[idx].0))
}

/// Last row index of the layout (0 when it has no lines).
pub open spec fn max_row(lines: Seq<LineView>) -> int {
    if lines.len() == 0 {
        0
    } else {
        lines.len() - 1
    }
}

/// Display position that move `m` goes to from (`r`, `col`); `None` when the
/// move leaves the layout's first or last position and goes by character.
pub open spec fn moved_row_col(lines: Seq<LineView>, r: usize, col: usize, m: CursorMove) -> Option<
    (int, int),
> {
    match m {
        CursorMove::Up => Some((if r > 0 { r - 1 } else { 0 }, col as int)),
        CursorMove::Down => Some((if r < max_row(lines) { r + 1 } else { r as int }, col as int)),
        CursorMove::Left => if col > 0 {
            Some((r as int, col - 1))
        } else if r > 0 {
            match line_with_row(lines, (r - 1) as usize) {
                Some(i) => Some(
                    (
                        r - 1,
                        if lines[i].cells.len() == 0 {
                            lines[i].gutter as int
                        } else {
                            lines[i].gutter + lines[i].cells.len() - 1
                        },
                    ),
                ),
                None => Some((r - 1, col as int)),
            }
        } else {
            None
        },
        CursorMove::Right => {
            let max_c = match line_with_row(lines, r) {
                Some(i) => lines[i].gutter + lines[i].cells.len(),
                None => 0,
            };
            if col < max_c {
                Some((r as int, col + 1))
            } else if r < max_row(lines) {
                Some((r + 1, 0))
            } else {
                None
            }
        },
        CursorMove::Home => match line_with_row(lines, r) {
            Some(i) => Some((r as int, lines[i].gutter as int)),
            None => Some((r as int, col as int)),
        },
        CursorMove::End => match line_with_row(lines, r) {
            Some(i) => Some((r as int, lines[i].gutter + lines[i].cells.len())),
            None => Some((r as int, col as int)),
        },
    }
}

/// Where move `m` puts cursor `c` in the layout `lines` of `doc`.
pub open spec fn layout_move_target(
    doc: DocumentView,
    lines: Seq<LineView>,
    c: CursorView,
    m: CursorMove,
) -> CursorView {
    let rc = match row_col_of(lines, c) {
        Some(p) => p,
        None => (0usize, 0usize),
    };
    match moved_row_col(lines, rc.0, rc.1, m) {
        None => if m == CursorMove::Left {
            prev_char_target(doc, c)
        } else {
            next_char_target(doc, c)
        },
        Some(p) => {
            let t = normalized(shown_at(lines, p.0, p.1, c), doc);
            if t == c && m == CursorMove::Left {
                prev_char_target(doc, c)
            } else if t == c && m == CursorMove::Right {
                step_right(doc, c)
            } else {
                t
            }
        },
    }
}

/// The cursor shown at display position (`r`, `col`), or `c` where none is.
pub open spec fn shown_at(lines: Seq<LineView>, r: int, col: int, c: CursorView) -> CursorView {
    match cursor_at_row_col(lines, r as usize, col as usize) {
        Some(x) => x,
        None => c,
    }
}

/// One char forward in document order; at the end of a leaf, onto the
/// start of the char at the same gap when another caret shows it.
pub open spec fn step_right(doc: DocumentView, c: CursorView) -> CursorView {
    let nc = next_char_target(doc, c);
    if nc != c {
        nc
    } else {
        match gap_index_of(doc, c) {
            Some(g) => match cursor_at_gap(doc, g) {
                Some(x) => x,
                None => c,
            },
            None => c,
        }
    }
}

fn step_right_exec(doc: &Document, cursor: &mut Cursor)
    ensures
        final(cursor)@ == step_right(doc@, old(cursor)@),
{
    let before = copy_cursor(cursor);
    move_cursor_next_char(doc, cursor);
    if cursor_eq(cursor, &before) {
        if let Some(g) = cursor_to_gap_index(doc, cursor) {
            let total = crate::edit::document_char_count(doc);
            proof {
                crate::edit_laws::lemma_gap_roundtrip(doc@, cursor@);
            }
            if let Some(x) = gap_index_to_cursor(doc, g) {
                *cursor = x;
            }
        }
    }
}

fn move_row_col(laid: &LaidOutDocument, r: usize, col: usize, m: CursorMove) -> (p: Option<
    (usize, usize),
>)
    requires
        laid_fits(laid@),
    ensures
        match moved_row_col(laid@, r, col, m) {
            Some(q) => p matches Some(x) && x.0 == q.0 && x.1 == q.1,
            None => p is None,
        },
{
    let n = laid.lines.len();
    let max_r: usize = if n == 0 {
        0
    } else {
        n - 1
    };
    assert(max_r == max_row(laid@));
    match m {
        CursorMove::Up => Some((if r > 0 {
            r - 1
        } else {
            0
        }, col)),
        CursorMove::Down => Some((if r < max_r {
            r + 1
        } else {
            r
        }, col)),
        CursorMove::Left => {
            if col > 0 {
                Some((r, col - 1))
            } else if r > 0 {
                match find_line_with_row(laid, r - 1) {
                    Some(i) => {
                        let l = &laid.lines[i];
                        assert(laid@[i as int].gutter + laid@[i as int].cells.len() + 1 <= usize::MAX);
                        let c = if l.cells.len() == 0 {
                            l.gutter
                        } else {
                            l.gutter + l.cells.len() - 1
                        };
                        Some((r - 1, c))
                    },
                    None => Some((r - 1, col)),
                }
            } else {
                None
            }
        },
        CursorMove::Right => {
            let max_c = match find_line_with_row(laid, r) {
                Some(i) => {
                    assert(laid@[i as int].gutter + laid@[i as int].cells.len() + 1 <= usize::MAX);
                    laid.lines[i].gutter + laid.lines[i].cells.len()
                },
                None => 0,
            };
            if col < max_c {
                Some((r, col + 1))
            } else if r < max_r {
                Some((r + 1, 0))
            } else {
                None
            }
        },
        CursorMove::Home => match find_line_with_row(laid, r) {
            Some(i) => Some((r, laid.lines[i].gutter)),
            None => Some((r, col)),
        },
        CursorMove::End => match find_line_with_row(laid, r) {
            Some(i) => {
                assert(laid@[i as int].gutter + laid@[i as int].cells.len() + 1 <= usize::MAX);
                Some((r, laid.lines[i].gutter + laid.lines[i].cells.len()))
            },
            None => Some((r, col)),
        },
    }
}

/// Moves `cursor` by `m` over the display grid of `laid`: up and down keep
/// the column, left and right cross line ends, home and end go to the row's
/// ends; at the layout's first or last position, and where the grid step
/// would leave the caret in place, left and right move by one character.
pub fn move_cursor_in_layout(doc: &Document, laid: &LaidOutDocument, cursor: &mut Cursor, m: CursorMove)
    requires
        laid_fits(laid@),
    ensures
        final(cursor)@ == layout_move_target(doc@, laid@, old(cursor)@, m),
{
    let (r, c) = match cursor_to_row_col(doc, laid, cursor) {
        Some(p) => p,
        None => (0, 0),
    };
    match move_row_col(laid, r, c, m) {
        None => {
            match m {
                CursorMove::Left => move_cursor_prev_char(doc, cursor),
                _ => move_cursor_next_char(doc, cursor),
            }
        },
        Some((r2, c2)) => {
            let mut t = match cursor_from_row_col(doc, laid, r2, c2) {
                Some(nc) => nc,
                None => copy_cursor(cursor),
            };
            t.normalize(doc);
            if cursor_eq(&t, cursor) && matches!(m, CursorMove::Left | CursorMove::Right) {
                // The grid step left the caret in place (a soft wrap shows one
                // caret at a row's end and at the next row's start; a gutter
                // or a blank row has no caret of its own): step by one char.
                match m {
                    CursorMove::Left => move_cursor_prev_char(doc, cursor),
                    _ => step_right_exec(doc, cursor),
                }
            } else {
                *cursor = t;
            }
        },
    }
}

/// Every line's row number is its index.
pub open spec fn rows_are_indices(lines: Seq<LineView>) -> bool {
    forall|i: int| 0 <= i < lines.len() ==> #[trigger] lines[i].row == i
}

/// The rows of a layout number its lines from 0.
pub proof fn lemma_layout_rows_are_indices(doc: DocumentView, width: u16, cfg: LayoutConfig)
    requires
        layout_fits(doc, width, cfg),
    ensures
        rows_are_indices(layout_view(doc, width, cfg)),
{
    let lines = layout_view(doc, width, cfg);
    assert forall|i: int| 0 <= i < lines.len() implies #[trigger] lines[i].row == i by {}
}

/// Index predicate holding at `i` only.
proof fn lemma_first_index_unique(n: int, p: spec_fn(int) -> bool, i: int)
    requires
        0 <= i < n,
        p(i),
        forall|k: int| 0 <= k < n && #[trigger] p(k) ==> k == i,
    ensures
        first_index(n, p) == Some(i),
{
    lemma_first_index_props(n, p);
}

/// A cursor that a layout shows at some display position maps back from
/// that position to itself.
pub proof fn lemma_row_col_roundtrip(lines: Seq<LineView>, c: CursorView)
    requires
        rows_are_indices(lines),
        laid_fits(lines),
        row_col_of(lines, c) is Some,
    ensures
        ({
            let p = row_col_of(lines, c).unwrap();
            cursor_at_row_col(lines, p.0, p.1) == Some(c)
        }),
{
    let sp = line_shows(lines, c);
    lemma_first_index_props(lines.len() as int, sp);
    let i = first_index(lines.len() as int, sp).unwrap();
    let l = lines[i];
    assert(l.row == i);
    assert(l.gutter + l.cells.len() + 1 <= usize::MAX);
    let rp = row_is(lines, l.row);
    assert forall|k: int| 0 <= k < lines.len() && #[trigger] rp(k) implies k == i by {
        assert(lines[k].row == k);
    }
    lemma_first_index_unique(lines.len() as int, rp, i);
    let cp = laid_cell_is(l.cells, c);
    lemma_first_index_props(l.cells.len() as int, cp);
}


/// In a laid-out document, the display position at which a caret is shown
/// maps back to that caret.
pub proof fn lemma_layout_row_col_roundtrip(doc: DocumentView, width: u16, cfg: LayoutConfig, c: CursorView)
    requires
        layout_fits(doc, width, cfg),
        laid_fits(layout_view(doc, width, cfg)),
        row_col_of(layout_view(doc, width, cfg), c) is Some,
    ensures
        ({
            let lines = layout_view(doc, width, cfg);
            let p = row_col_of(lines, c).unwrap();
            cursor_at_row_col(lines, p.0, p.1) == Some(c)
        }),
{
    lemma_layout_rows_are_indices(doc, width, cfg);
    lemma_row_col_roundtrip(layout_view(doc, width, cfg), c);
}

} // verus!
