//! `EditOp` reducer and editor state.

use vstd::prelude::*;

use crate::cursor::{
    block_inlines, copy_cursor, cursor_eq, get_text_at_path, leaf_text, normalized, text_at,
    with_block_inlines, with_text_at, Cursor, CursorView,
};
use crate::document::{
    inlines_view, next_generation, Block, BlockView, Document, DocumentView, Inline, InlineView,
};
use crate::layout::{
    advance_cursor_after_char, after_char, cells_fit, default_layout_config, doc_chars, doc_text,
    flatten_block, flatten_blocks, flatten_document_chars, flatten_inlines_for_edit, laid_fits,
    layout_document, layout_fits, layout_move_target, layout_view, lemma_flatten_blocks_step,
    move_cursor_in_layout, pairs_view, LaidOutDocument, LayoutConfig,
};
use crate::search::{
    first_index, last_index, lemma_first_index_extends, lemma_first_index_props,
    lemma_last_index_props,
};
use crate::text::{
    byte_offset_of, char_index_of_offset, char_index_at, char_utf8_len, floor_boundary,
    floor_char_index,
    is_char_boundary, lemma_byte_offset_le_len, lemma_byte_offset_step, lemma_char_index_at,
    text_byte_len, utf8_len,
};

verus! {

#[derive(Clone, Debug, Default, PartialEq, Eq)]
pub enum Mode {
    #[default]
    Insert,
}

/// Gap indices in `0..=document_char_count`: caret before char `i`, or after last char.
#[derive(Clone, Copy, Debug, Default, PartialEq, Eq)]
pub struct Selection {
    pub anchor: usize,
    pub head: usize,
}

#[derive(Clone, Debug, Default)]
pub struct EditorState {
    pub cursor: Cursor,
    pub mode: Mode,
    pub selection: Option<Selection>,
    /// First visible visual line index (`LaidOutLine.row` space).
    pub scroll_top: usize,
}

#[derive(Clone, Copy, Debug, PartialEq, Eq)]
pub enum CursorMove {
    Left,
    Right,
    Up,
    Down,
    Home,
    End,
}

#[derive(Debug, PartialEq, Eq)]
pub enum EditOp {
    InsertChar(char),
    Backspace,
    NewLine,
    InsertBlock(usize, Block),
    DeleteBlock(usize),
    ToggleBold,
    ToggleItalic,
    MoveCursor(CursorMove),
}

/// The cursors before each char of the document, in document order.
pub open spec fn doc_starts(doc: DocumentView) -> Seq<CursorView> {
    doc_chars(doc).map_values(|p: (CursorView, char)| p.0)
}

/// Index predicate: cell `i` starts at `c`.
pub open spec fn cell_starts_at(flat: Seq<(CursorView, char)>, c: CursorView) -> spec_fn(int) -> bool {
    |i: int| flat[i].0 == c
}

/// Index predicate: cell `i` ends at `c`.
pub open spec fn cell_ends_at(flat: Seq<(CursorView, char)>, c: CursorView) -> spec_fn(int) -> bool {
    |i: int| after_char(flat[i].0, flat[i].1) == c
}

/// Index predicate: start `j` is `c`.
pub open spec fn start_is(s: Seq<CursorView>, c: CursorView) -> spec_fn(int) -> bool {
    |j: int| s[j] == c
}

/// Index predicate: start `j + 1` is `c`.
pub open spec fn next_start_is(s: Seq<CursorView>, c: CursorView) -> spec_fn(int) -> bool {
    |j: int| s[j + 1] == c
}

/// Index predicate: start `j` comes before `c`.
pub open spec fn start_precedes(s: Seq<CursorView>, c: CursorView) -> spec_fn(int) -> bool {
    |j: int| cursor_lt(s[j], c)
}

/// Gap index of a caret: the first char whose start it is, else one past the
/// first char it directly follows, else 0 in an empty document.
pub open spec fn gap_index_of(doc: DocumentView, c: CursorView) -> Option<int> {
    let flat = doc_chars(doc);
    let n = flat.len() as int;
    match first_index(n, cell_starts_at(flat, c)) {
        Some(i) => Some(i),
        None => match first_index(n, cell_ends_at(flat, c)) {
            Some(i) => Some(i + 1),
            None => if n == 0 {
                Some(0)
            } else {
                None
            },
        },
    }
}

/// Caret for gap `g`: before char `g`, or after the last char when `g` is the
/// char count; the start of the first leaf in an empty document.
pub open spec fn cursor_at_gap(doc: DocumentView, g: int) -> Option<CursorView> {
    let flat = doc_chars(doc);
    let n = flat.len() as int;
    if 0 <= g < n {
        Some(flat[g].0)
    } else if g == n && n > 0 {
        Some(after_char(flat[n - 1].0, flat[n - 1].1))
    } else if g == 0 && n == 0 {
        Some(CursorView { block_index: 0, inline_path: seq![0], offset: 0 })
    } else {
        None
    }
}

/// Lexicographic order on paths.
pub open spec fn path_lt(a: Seq<usize>, b: Seq<usize>) -> bool
    decreases a.len(),
{
    if a.len() == 0 {
        b.len() > 0
    } else if b.len() == 0 {
        false
    } else if a[0] != b[0] {
        a[0] < b[0]
    } else {
        path_lt(a.drop_first(), b.drop_first())
    }
}

pub proof fn lemma_path_lt_irreflexive(a: Seq<usize>)
    ensures
        !path_lt(a, a),
    decreases a.len(),
{
    if a.len() > 0 {
        lemma_path_lt_irreflexive(a.drop_first());
    }
}

/// Document order on cursors: block, then path, then offset.
pub open spec fn cursor_lt(a: CursorView, b: CursorView) -> bool {
    ||| a.block_index < b.block_index
    ||| a.block_index == b.block_index && path_lt(a.inline_path, b.inline_path)
    ||| a.block_index == b.block_index && a.inline_path == b.inline_path && a.offset < b.offset
}

/// The same cursor one char further in its leaf, when it sits on a char start.
pub open spec fn next_in_leaf(doc: DocumentView, c: CursorView) -> Option<CursorView> {
    match leaf_text(doc, c) {
        Some(t) => if is_char_boundary(t, c.offset as int) && char_index_at(t, c.offset as int)
            < t.len() {
            Some(
                CursorView {
                    offset: byte_offset_of(t, char_index_at(t, c.offset as int) + 1) as usize,
                    ..c
                },
            )
        } else {
            None
        },
        None => None,
    }
}

/// The same cursor at the last char boundary of its leaf strictly before its offset.
pub open spec fn prev_in_leaf(doc: DocumentView, c: CursorView) -> Option<CursorView> {
    match leaf_text(doc, c) {
        Some(t) => if c.offset == 0 {
            None
        } else {
            Some(
                CursorView {
                    offset: byte_offset_of(t, floor_char_index(t, c.offset - 1)) as usize,
                    ..c
                },
            )
        },
        None => None,
    }
}

/// Where moving one char forward puts cursor `c`.
pub open spec fn next_char_target(doc: DocumentView, c: CursorView) -> CursorView {
    let s = doc_starts(doc);
    match first_index(s.len() - 1, start_is(s, c)) {
        Some(j) => s[j + 1],
        None => match next_in_leaf(doc, c) {
            Some(a) => a,
            None => c,
        },
    }
}

/// Where moving one char backward puts cursor `c`.
pub open spec fn prev_char_target(doc: DocumentView, c: CursorView) -> CursorView {
    let s = doc_starts(doc);
    match first_index(s.len() - 1, next_start_is(s, c)) {
        Some(j) => s[j],
        None => match last_index(s.len() as int, start_precedes(s, c)) {
            Some(j) => {
                let b = s[j];
                if c.block_index == b.block_index && c.inline_path == b.inline_path && c.offset
                    > b.offset && prev_in_leaf(doc, c) is Some {
                    prev_in_leaf(doc, c)->0
                } else {
                    b
                }
            },
            None => c,
        },
    }
}


/// Model of the editor state.
#[verifier::ext_equal]
pub struct EditorStateView {
    pub cursor: CursorView,
    pub selection: Option<Selection>,
    pub scroll_top: usize,
}

impl View for EditorState {
    type V = EditorStateView;

    open spec fn view(&self) -> EditorStateView {
        EditorStateView {
            cursor: self.cursor@,
            selection: self.selection,
            scroll_top: self.scroll_top,
        }
    }
}

/// Model of an edit operation.
pub enum EditOpView {
    InsertChar(char),
    Backspace,
    NewLine,
    InsertBlock(usize, BlockView),
    DeleteBlock(usize),
    ToggleBold,
    ToggleItalic,
    MoveCursor(CursorMove),
}

impl View for EditOp {
    type V = EditOpView;

    open spec fn view(&self) -> EditOpView {
        match *self {
            EditOp::InsertChar(c) => EditOpView::InsertChar(c),
            EditOp::Backspace => EditOpView::Backspace,
            EditOp::NewLine => EditOpView::NewLine,
            EditOp::InsertBlock(i, b) => EditOpView::InsertBlock(i, b@),
            EditOp::DeleteBlock(i) => EditOpView::DeleteBlock(i),
            EditOp::ToggleBold => EditOpView::ToggleBold,
            EditOp::ToggleItalic => EditOpView::ToggleItalic,
            EditOp::MoveCursor(m) => EditOpView::MoveCursor(m),
        }
    }
}

/// `st` with its cursor replaced.
pub open spec fn with_cursor(st: EditorStateView, c: CursorView) -> EditorStateView {
    EditorStateView { cursor: c, ..st }
}

/// `doc` with its blocks replaced.
pub open spec fn with_blocks(doc: DocumentView, blocks: Seq<BlockView>) -> DocumentView {
    DocumentView { blocks, ..doc }
}

/// `c` with its offset replaced.
pub open spec fn with_offset(c: CursorView, offset: usize) -> CursorView {
    CursorView { offset, ..c }
}

/// Cursor at the start of the first leaf of block `bi` (path `[0]`).
pub open spec fn block_start_cursor(bi: usize) -> CursorView {
    CursorView { block_index: bi, inline_path: seq![0], offset: 0 }
}

/// `doc` with the text addressed by `c` (its leaf or code block text) replaced by `t`.
pub open spec fn with_leaf_text(doc: DocumentView, c: CursorView, t: Seq<char>) -> DocumentView {
    if c.block_index >= doc.blocks.len() {
        doc
    } else {
        let bi = c.block_index as int;
        with_blocks(
            doc,
            doc.blocks.update(
                bi,
                match doc.blocks[bi] {
                    BlockView::CodeBlock { lang, .. } => BlockView::CodeBlock { lang, text: t },
                    BlockView::Paragraph(il) => BlockView::Paragraph(
                        with_text_at(il, c.inline_path, t),
                    ),
                    BlockView::Heading { level, content } => BlockView::Heading {
                        level,
                        content: with_text_at(content, c.inline_path, t),
                    },
                },
            ),
        )
    }
}

/// Non-empty selection range taken out of the state (the selection is cleared),
/// or `None` with the state unchanged.
pub open spec fn take_range(st: EditorStateView) -> (Option<(usize, usize)>, EditorStateView) {
    match st.selection {
        Some(sel) => {
            let lo = if sel.anchor <= sel.head {
                sel.anchor
            } else {
                sel.head
            };
            let hi = if sel.anchor <= sel.head {
                sel.head
            } else {
                sel.anchor
            };
            if lo < hi {
                (Some((lo, hi)), EditorStateView { selection: None, ..st })
            } else {
                (None, st)
            }
        },
        None => (None, st),
    }
}

/// Typing `ch` at the (normalized) cursor: the char goes into the addressed
/// text at the cursor and the cursor moves past it.
pub open spec fn insert_char_spec(doc: DocumentView, st: EditorStateView, ch: char) -> (
    DocumentView,
    EditorStateView,
    bool,
) {
    let c = normalized(st.cursor, doc);
    match leaf_text(doc, c) {
        Some(t) => {
            let k = char_index_at(t, c.offset as int);
            (
                with_leaf_text(doc, c, t.insert(k, ch)),
                with_cursor(st, with_offset(c, (c.offset + char_utf8_len(ch)) as usize)),
                true,
            )
        },
        None => (doc, with_cursor(st, c), false),
    }
}

/// Joining paragraph `bi` of `st.cursor` into the paragraph before it; where
/// either block is not a paragraph nothing changes and the result is `false`.
pub open spec fn merge_spec(doc: DocumentView, st: EditorStateView) -> (
    DocumentView,
    EditorStateView,
    bool,
) {
    let bi = st.cursor.block_index as int;
    if bi == 0 || bi >= doc.blocks.len() {
        (doc, st, false)
    } else {
        let join = normalized(
            CursorView { block_index: (bi - 1) as usize, inline_path: seq![usize::MAX], offset: usize::MAX },
            doc,
        );
        match (doc.blocks[bi - 1], doc.blocks[bi]) {
            (BlockView::Paragraph(a), BlockView::Paragraph(b)) => {
                let d2 = with_blocks(
                    doc,
                    doc.blocks.remove(bi).update(bi - 1, BlockView::Paragraph(a + b)),
                );
                (d2, with_cursor(st, normalized(join, d2)), true)
            },
            _ => (doc, st, false),
        }
    }
}

/// Deleting the char before the (normalized) cursor, or joining with the
/// previous block at the start of a leaf.
pub open spec fn backspace_spec(doc: DocumentView, st: EditorStateView) -> (
    DocumentView,
    EditorStateView,
    bool,
) {
    let c = normalized(st.cursor, doc);
    match leaf_text(doc, c) {
        Some(t) => if c.offset > 0 {
            let k = floor_char_index(t, c.offset - 1);
            (
                with_leaf_text(doc, c, t.remove(k)),
                with_cursor(st, with_offset(c, byte_offset_of(t, k) as usize)),
                true,
            )
        } else {
            merge_spec(doc, with_cursor(st, c))
        },
        None => merge_spec(doc, with_cursor(st, c)),
    }
}

/// The document with the char of cell `k` (in global char order) taken out
/// of the leaf that holds it.
pub open spec fn remove_char_spec(doc: DocumentView, k: int) -> DocumentView {
    let c = doc_chars(doc)[k].0;
    match leaf_text(doc, c) {
        Some(t) => with_leaf_text(doc, c, t.remove(char_index_at(t, c.offset as int))),
        None => doc,
    }
}

/// Deleting the chars with global indices `lo..end`, the last one first,
/// each from the leaf that holds it; the cursor ends at gap `lo`. Nothing
/// changes and the result is `false` when `end` lies past the last char.
pub open spec fn delete_range_spec(doc: DocumentView, st: EditorStateView, lo: int, end: int) -> (
    DocumentView,
    EditorStateView,
    bool,
)
    decreases end - lo,
{
    if end <= lo {
        match cursor_at_gap(doc, lo) {
            Some(c) => (doc, with_cursor(st, c), true),
            None => (doc, st, false),
        }
    } else if end > doc_chars(doc).len() {
        (doc, st, false)
    } else {
        delete_range_spec(remove_char_spec(doc, end - 1), st, lo, end - 1)
    }
}

/// Splitting root-level text `il[path[0]]` at byte `off`: the inlines that stay
/// and the inlines of the new paragraph below.
pub open spec fn split_spec(il: Seq<InlineView>, path: Seq<usize>, off: usize) -> Option<
    (Seq<InlineView>, Seq<InlineView>),
> {
    if path.len() != 1 || path[0] >= il.len() {
        None
    } else {
        let i = path[0] as int;
        match il[i] {
            InlineView::Text(s) => if !is_char_boundary(s, off as int) {
                None
            } else {
                let k = char_index_at(s, off as int);
                let b = s.skip(k);
                let head: Seq<InlineView> = if b.len() > 0 {
                    seq![InlineView::Text(b)]
                } else {
                    Seq::empty()
                };
                let after = head + il.skip(i + 1);
                Some(
                    (
                        il.take(i).push(InlineView::Text(s.take(k))),
                        if after.len() == 0 {
                            seq![InlineView::Text(Seq::empty())]
                        } else {
                            after
                        },
                    ),
                )
            },
            _ => None,
        }
    }
}

/// Enter at the (normalized) cursor: splits a paragraph or heading (the new
/// block is a paragraph), or puts a line break into a code block.
pub open spec fn newline_spec(doc: DocumentView, st: EditorStateView) -> (
    DocumentView,
    EditorStateView,
    bool,
) {
    let c = normalized(st.cursor, doc);
    let st1 = with_cursor(st, c);
    let bi = c.block_index as int;
    if bi >= doc.blocks.len() {
        (doc, st1, false)
    } else {
        match doc.blocks[bi] {
            BlockView::CodeBlock { lang, text } => {
                let off = if c.offset > utf8_len(text) {
                    utf8_len(text) as int
                } else {
                    c.offset as int
                };
                if !is_char_boundary(text, off) {
                    (doc, st1, false)
                } else {
                    (
                        with_blocks(
                            doc,
                            doc.blocks.update(
                                bi,
                                BlockView::CodeBlock {
                                    lang,
                                    text: text.insert(char_index_at(text, off), '\n'),
                                },
                            ),
                        ),
                        with_cursor(st, with_offset(c, (c.offset + 1) as usize)),
                        true,
                    )
                }
            },
            _ => match split_spec(block_inlines(doc.blocks[bi])->0, c.inline_path, c.offset) {
                None => (doc, st1, false),
                Some((left, after)) => (
                    with_blocks(
                        doc,
                        doc.blocks.update(bi, with_block_inlines(doc.blocks[bi], left)).insert(
                            bi + 1,
                            BlockView::Paragraph(after),
                        ),
                    ),
                    with_cursor(st, block_start_cursor((bi + 1) as usize)),
                    true,
                ),
            },
        }
    }
}

/// The empty bold (or italic) node that a toggle inserts.
pub open spec fn toggle_mid(bold: bool) -> InlineView {
    if bold {
        InlineView::Bold(seq![InlineView::Text(Seq::empty())])
    } else {
        InlineView::Italic(seq![InlineView::Text(Seq::empty())])
    }
}

/// Toggling bold/italic at the (normalized) cursor in root-level text: the
/// text is split around an empty bold/italic node and the cursor moves into it.
pub open spec fn toggle_spec(doc: DocumentView, st: EditorStateView, bold: bool) -> (
    DocumentView,
    EditorStateView,
    bool,
) {
    let c = normalized(st.cursor, doc);
    let st1 = with_cursor(st, c);
    let bi = c.block_index as int;
    if c.inline_path.len() != 1 || bi >= doc.blocks.len() || block_inlines(doc.blocks[bi]) is None {
        (doc, st1, false)
    } else {
        let il = block_inlines(doc.blocks[bi])->0;
        let i = c.inline_path[0] as int;
        if i >= il.len() {
            (doc, st1, false)
        } else {
            match il[i] {
                InlineView::Text(s) => if !is_char_boundary(s, c.offset as int) {
                    (doc, st1, false)
                } else {
                    let k = char_index_at(s, c.offset as int);
                    let before = s.take(k);
                    let after = s.skip(k);
                    let pre: Seq<InlineView> = if before.len() > 0 {
                        seq![InlineView::Text(before)]
                    } else {
                        Seq::empty()
                    };
                    let post: Seq<InlineView> = if after.len() > 0 {
                        seq![InlineView::Text(after)]
                    } else {
                        Seq::empty()
                    };
                    let rebuilt = pre + seq![toggle_mid(bold)] + post;
                    let mid_idx = if before.len() == 0 {
                        i
                    } else {
                        i + 1
                    };
                    (
                        with_blocks(
                            doc,
                            doc.blocks.update(
                                bi,
                                with_block_inlines(
                                    doc.blocks[bi],
                                    il.take(i) + rebuilt + il.skip(i + 1),
                                ),
                            ),
                        ),
                        with_cursor(
                            st,
                            CursorView {
                                block_index: c.block_index,
                                inline_path: seq![mid_idx as usize, 0],
                                offset: 0,
                            },
                        ),
                        true,
                    )
                },
                _ => (doc, st1, false),
            }
        }
    }
}

/// Effect of an edit before the generation bump: new document, new state, and
/// whether the edit took place.
pub open spec fn edit_effect(doc: DocumentView, st: EditorStateView, op: EditOpView) -> (
    DocumentView,
    EditorStateView,
    bool,
) {
    let st1 = with_cursor(st, normalized(st.cursor, doc));
    match op {
        EditOpView::MoveCursor(_) => (doc, st, false),
        EditOpView::InsertChar(ch) => match take_range(st1).0 {
            Some((lo, hi)) => {
                let d = delete_range_spec(doc, take_range(st1).1, lo as int, hi as int);
                if !d.2 {
                    (d.0, d.1, false)
                } else {
                    insert_char_spec(d.0, d.1, ch)
                }
            },
            None => insert_char_spec(doc, st1, ch),
        },
        EditOpView::Backspace => match take_range(st1).0 {
            Some((lo, hi)) => delete_range_spec(doc, take_range(st1).1, lo as int, hi as int),
            None => backspace_spec(doc, st1),
        },
        EditOpView::NewLine => match take_range(st1).0 {
            Some((lo, hi)) => {
                let d = delete_range_spec(doc, take_range(st1).1, lo as int, hi as int);
                if !d.2 {
                    (d.0, d.1, false)
                } else {
                    newline_spec(d.0, d.1)
                }
            },
            None => newline_spec(doc, st1),
        },
        EditOpView::InsertBlock(i, b) => {
            let j = if i > doc.blocks.len() {
                doc.blocks.len() as usize
            } else {
                i
            };
            (
                with_blocks(doc, doc.blocks.insert(j as int, b)),
                EditorStateView { cursor: block_start_cursor(j), selection: None, ..st },
                true,
            )
        },
        EditOpView::DeleteBlock(i) => if i >= doc.blocks.len() {
            (doc, EditorStateView { selection: None, ..st }, false)
        } else {
            let rest = doc.blocks.remove(i as int);
            let blocks = if rest.len() == 0 {
                seq![crate::document::empty_paragraph()]
            } else {
                rest
            };
            let d2 = with_blocks(doc, blocks);
            let ni = if i >= blocks.len() {
                (blocks.len() - 1) as usize
            } else {
                i
            };
            (
                d2,
                EditorStateView {
                    cursor: normalized(block_start_cursor(ni), d2),
                    selection: None,
                    ..st
                },
                true,
            )
        },
        EditOpView::ToggleBold => toggle_spec(doc, st, true),
        EditOpView::ToggleItalic => toggle_spec(doc, st, false),
    }
}

/// Result of `reduce_edit`: the effect, with the generation bumped when the edit took place.
pub open spec fn reduce_edit_spec(doc: DocumentView, st: EditorStateView, op: EditOpView) -> (
    DocumentView,
    EditorStateView,
    bool,
) {
    let e = edit_effect(doc, st, op);
    if e.2 {
        (DocumentView { generation: next_generation(e.0.generation), ..e.0 }, e.1, true)
    } else {
        e
    }
}


/// Text of the leaf at the cursor in a paragraph or heading.
pub open spec fn inline_leaf(doc: DocumentView, c: CursorView) -> Option<Seq<char>> {
    if c.block_index >= doc.blocks.len() {
        None
    } else {
        match block_inlines(doc.blocks[c.block_index as int]) {
            Some(il) => text_at(il, c.inline_path),
            None => None,
        }
    }
}

/// Text of the code block at the cursor.
pub open spec fn code_text(doc: DocumentView, c: CursorView) -> Option<Seq<char>> {
    if c.block_index >= doc.blocks.len() {
        None
    } else {
        match doc.blocks[c.block_index as int] {
            BlockView::CodeBlock { text, .. } => Some(text),
            _ => None,
        }
    }
}

/// Models of a cursor sequence.
pub open spec fn cursors_view(v: Seq<Cursor>) -> Seq<CursorView> {
    Seq::new(v.len(), |i: int| v[i]@)
}

#[inline]
pub fn selection_ordered(sel: &Selection) -> (r: (usize, usize))
    ensures
        r == (if sel.anchor <= sel.head {
            (sel.anchor, sel.head)
        } else {
            (sel.head, sel.anchor)
        }),
{
    if sel.anchor <= sel.head {
        (sel.anchor, sel.head)
    } else {
        (sel.head, sel.anchor)
    }
}

/// Number of characters in flatten order (global indices are `0..n`).
pub fn document_char_count(doc: &Document) -> (n: usize)
    ensures
        n == doc_chars(doc@).len(),
{
    flatten_document_chars(doc).len()
}

/// Map caret to gap index (`0`..`= char_count`).
pub fn cursor_to_gap_index(doc: &Document, cursor: &Cursor) -> (r: Option<usize>)
    ensures
        match gap_index_of(doc@, cursor@) {
            Some(g) => r == Some(g as usize),
            None => r is None,
        },
{
    let flat = flatten_document_chars(doc);
    let ghost fv = pairs_view(flat@);
    let ghost c = cursor@;
    let ghost p1 = cell_starts_at(fv, c);
    let ghost p2 = cell_ends_at(fv, c);
    let n = flat.len();
    let mut i: usize = 0;
    while i < n
        invariant
            n == flat@.len(),
            fv == pairs_view(flat@),
            fv == doc_chars(doc@),
            c == cursor@,
            p1 == cell_starts_at(fv, c),
            i <= n,
            first_index(i as int, p1) is None,
        decreases n - i,
    {
        assert(fv[i as int].0 == flat@[i as int].0@);
        if cursor_eq(&flat[i].0, cursor) {
            assert(p1(i as int));
            assert(first_index(i + 1, p1) == Some(i as int));
            proof {
                lemma_first_index_extends(i + 1, n as int, p1);
            }
            assert(doc_chars(doc@) == fv);
            assert(first_index(n as int, cell_starts_at(doc_chars(doc@), cursor@)) == Some(i as int));
            assert(gap_index_of(doc@, cursor@) == Some(i as int));
            return Some(i);
        }
        assert(!p1(i as int));
        i = i + 1;
    }
    let mut j: usize = 0;
    while j < n
        invariant
            n == flat@.len(),
            fv == pairs_view(flat@),
            fv == doc_chars(doc@),
            c == cursor@,
            p1 == cell_starts_at(fv, c),
            p2 == cell_ends_at(fv, c),
            cells_fit(fv),
            j <= n,
            first_index(n as int, p1) is None,
            first_index(j as int, p2) is None,
        decreases n - j,
    {
        assert(fv[j as int].0.offset + crate::text::char_utf8_len(fv[j as int].1) <= isize::MAX);
        assert(fv[j as int].0 == flat@[j as int].0@ && fv[j as int].1 == flat@[j as int].1);
        let after = advance_cursor_after_char(&flat[j].0, flat[j].1);
        if cursor_eq(&after, cursor) {
            assert(p2(j as int));
            assert(first_index(j + 1, p2) == Some(j as int));
            proof {
                lemma_first_index_extends(j + 1, n as int, p2);
            }
            return Some(j + 1);
        }
        assert(!p2(j as int));
        j = j + 1;
    }
    if n == 0 {
        return Some(0);
    }
    None
}

/// Gap `g`: before char `g`, or after the last char when `g == n` and `n > 0`.
pub fn gap_index_to_cursor(doc: &Document, g: usize) -> (r: Option<Cursor>)
    ensures
        match cursor_at_gap(doc@, g as int) {
            Some(c) => r matches Some(x) && x@ == c,
            None => r is None,
        },
{
    let flat = flatten_document_chars(doc);
    let ghost fv = pairs_view(flat@);
    let n = flat.len();
    if g < n {
        assert(fv[g as int].0 == flat@[g as int].0@);
        Some(copy_cursor(&flat[g].0))
    } else if g == n && n > 0 {
        assert(fv[n - 1].0.offset + crate::text::char_utf8_len(fv[n - 1].1) <= isize::MAX);
        Some(advance_cursor_after_char(&flat[n - 1].0, flat[n - 1].1))
    } else if g == 0 && n == 0 {
        let mut p: Vec<usize> = Vec::new();
        p.push(0);
        assert(p@ =~= seq![0usize]);
        Some(Cursor::new(0, p, 0))
    } else {
        None
    }
}

/// Every cursor that points immediately *before* a character in document order.
pub fn document_char_starts(doc: &Document) -> (v: Vec<Cursor>)
    ensures
        cursors_view(v@) == doc_starts(doc@),
{
    let flat = flatten_document_chars(doc);
    let ghost fv = pairs_view(flat@);
    let mut v: Vec<Cursor> = Vec::new();
    let mut i: usize = 0;
    while i < flat.len()
        invariant
            fv == pairs_view(flat@),
            i <= flat@.len(),
            v@.len() == i,
            forall|k: int| 0 <= k < i ==> v@[k]@ == #[trigger] fv[k].0,
        decreases flat@.len() - i,
    {
        let c = copy_cursor(&flat[i].0);
        assert(fv[i as int].0 == flat@[i as int].0@);
        v.push(c);
        i = i + 1;
    }
    assert(cursors_view(v@) =~= doc_starts(doc@));
    v
}

/// Whether path `a` sorts before path `b`.
fn path_less(a: &Vec<usize>, b: &Vec<usize>) -> (r: bool)
    ensures
        r == path_lt(a@, b@),
{
    let mut i: usize = 0;
    assert(a@.skip(0) =~= a@);
    assert(b@.skip(0) =~= b@);
    while i < a.len() && i < b.len() && a[i] == b[i]
        invariant
            i <= a@.len(),
            i <= b@.len(),
            path_lt(a@, b@) == path_lt(a@.skip(i as int), b@.skip(i as int)),
        decreases a@.len() - i,
    {
        assert(a@.skip(i as int).drop_first() =~= a@.skip(i + 1));
        assert(b@.skip(i as int).drop_first() =~= b@.skip(i + 1));
        i = i + 1;
    }
    assert(a@.skip(i as int).len() == a@.len() - i);
    assert(b@.skip(i as int).len() == b@.len() - i);
    if i == a.len() {
        i < b.len()
    } else if i == b.len() {
        false
    } else {
        a[i] < b[i]
    }
}

/// Whether cursor `a` comes before cursor `b` in document order.
fn cursor_before(a: &Cursor, b: &Cursor) -> (r: bool)
    ensures
        r == cursor_lt(a@, b@),
{
    if a.block_index != b.block_index {
        return a.block_index < b.block_index;
    }
    if crate::cursor::path_eq(&a.inline_path, &b.inline_path) {
        proof {
            lemma_path_lt_irreflexive(a.inline_path@);
        }
        a.offset < b.offset
    } else {
        path_less(&a.inline_path, &b.inline_path)
    }
}

fn leaf_str<'a>(doc: &'a Document, cursor: &Cursor) -> (r: Option<&'a str>)
    ensures
        match leaf_text(doc@, cursor@) {
            Some(t) => r matches Some(s) && s@ == t,
            None => r is None,
        },
{
    if cursor.block_index >= doc.blocks.len() {
        return None;
    }
    match &doc.blocks[cursor.block_index] {
        Block::Paragraph(il) => get_text_at_path(il.as_slice(), cursor.inline_path.as_slice()),
        Block::Heading { content: il, .. } => get_text_at_path(
            il.as_slice(),
            cursor.inline_path.as_slice(),
        ),
        Block::CodeBlock { text, .. } => Some(text.as_str()),
    }
}

fn prev_utf8_offset(doc: &Document, cursor: &Cursor) -> (r: Option<Cursor>)
    ensures
        match prev_in_leaf(doc@, cursor@) {
            Some(c) => r matches Some(x) && x@ == c,
            None => r is None,
        },
{
    let t = match leaf_str(doc, cursor) {
        Some(t) => t,
        None => return None,
    };
    if cursor.offset == 0 {
        return None;
    }
    let (_k, b) = floor_boundary(t, cursor.offset - 1);
    let mut c = copy_cursor(cursor);
    c.offset = b;
    Some(c)
}

fn advance_in_same_leaf(doc: &Document, cursor: &Cursor) -> (r: Option<Cursor>)
    ensures
        match next_in_leaf(doc@, cursor@) {
            Some(c) => r matches Some(x) && x@ == c,
            None => r is None,
        },
{
    let t = match leaf_str(doc, cursor) {
        Some(t) => t,
        None => return None,
    };
    let n = text_byte_len(t);
    let k = match char_index_of_offset(t, cursor.offset) {
        Some(k) => k,
        None => return None,
    };
    let chars = crate::text::text_chars(t);
    if k >= chars.len() {
        return None;
    }
    proof {
        lemma_byte_offset_step(t@, k as int);
        lemma_byte_offset_le_len(t@, k + 1);
    }
    let mut c = copy_cursor(cursor);
    c.offset = cursor.offset + crate::text::char_len_utf8(chars[k]);
    Some(c)
}

pub fn move_cursor_prev_char(doc: &Document, cursor: &mut Cursor)
    ensures
        final(cursor)@ == prev_char_target(doc@, old(cursor)@),
{
    let starts = document_char_starts(doc);
    let ghost s = cursors_view(starts@);
    let ghost c = cursor@;
    let ghost p1 = next_start_is(s, c);
    let ghost p2 = start_precedes(s, c);
    let n = starts.len();
    let mut j: usize = 0;
    while n > 0 && j < n - 1
        invariant
            s == cursors_view(starts@),
            s == doc_starts(doc@),
            n == starts@.len(),
            c == cursor@,
            c == old(cursor)@,
            p1 == next_start_is(s, c),
            n > 0 ==> j <= n - 1,
            n == 0 ==> j == 0,
            first_index(j as int, p1) is None,
        decreases n - j,
    {
        assert(s[j + 1] == starts@[j + 1]@);
        if cursor_eq(&starts[j + 1], cursor) {
            assert(p1(j as int));
            assert(first_index(j + 1, p1) == Some(j as int));
            proof {
                lemma_first_index_extends(j + 1, s.len() - 1, p1);
            }
            *cursor = copy_cursor(&starts[j]);
            assert(s[j as int] == starts@[j as int]@);
            assert(s == doc_starts(doc@));
            assert(first_index(s.len() - 1, next_start_is(s, c)) == Some(j as int));
            assert(cursor@ == prev_char_target(doc@, c));
            return;
        }
        assert(!p1(j as int));
        j = j + 1;
    }
    assert(first_index(s.len() - 1, p1) is None);
    // the last start before the cursor
    let mut best: Option<usize> = None;
    let mut i: usize = 0;
    while i < n
        invariant
            s == cursors_view(starts@),
            s == doc_starts(doc@),
            n == starts@.len(),
            c == cursor@,
            c == old(cursor)@,
            p2 == start_precedes(s, c),
            i <= n,
            match best {
                Some(b) => b < n && last_index(i as int, p2) == Some(b as int),
                None => last_index(i as int, p2) is None,
            },
        decreases n - i,
    {
        assert(s[i as int] == starts@[i as int]@);
        if cursor_before(&starts[i], cursor) {
            assert(p2(i as int));
            best = Some(i);
        } else {
            assert(!p2(i as int));
        }
        i = i + 1;
    }
    if let Some(bi) = best {
        let b = &starts[bi];
        assert(s[bi as int] == b@);
        if cursor.block_index == b.block_index && crate::cursor::path_eq(
            &cursor.inline_path,
            &b.inline_path,
        ) && cursor.offset > b.offset {
            if let Some(p) = prev_utf8_offset(doc, cursor) {
                *cursor = p;
                return;
            }
        }
        *cursor = copy_cursor(b);
    }
}

pub fn move_cursor_next_char(doc: &Document, cursor: &mut Cursor)
    ensures
        final(cursor)@ == next_char_target(doc@, old(cursor)@),
{
    let starts = document_char_starts(doc);
    let ghost s = cursors_view(starts@);
    let ghost c = cursor@;
    let ghost p1 = start_is(s, c);
    let n = starts.len();
    let mut j: usize = 0;
    while n > 0 && j < n - 1
        invariant
            s == cursors_view(starts@),
            s == doc_starts(doc@),
            n == starts@.len(),
            c == cursor@,
            c == old(cursor)@,
            p1 == start_is(s, c),
            n > 0 ==> j <= n - 1,
            n == 0 ==> j == 0,
            first_index(j as int, p1) is None,
        decreases n - j,
    {
        assert(s[j as int] == starts@[j as int]@);
        if cursor_eq(&starts[j], cursor) {
            assert(p1(j as int));
            assert(first_index(j + 1, p1) == Some(j as int));
            proof {
                lemma_first_index_extends(j + 1, s.len() - 1, p1);
            }
            *cursor = copy_cursor(&starts[j + 1]);
            assert(s[j + 1] == starts@[j + 1]@);
            return;
        }
        assert(!p1(j as int));
        j = j + 1;
    }
    assert(first_index(s.len() - 1, p1) is None);
    if let Some(a) = advance_in_same_leaf(doc, cursor) {
        *cursor = a;
    }
}


/// Apply structural/text edit. Returns whether the document changed. Does not handle `MoveCursor`.
fn take_non_empty_selection_range(state: &mut EditorState) -> (r: Option<(usize, usize)>)
    ensures
        (r, final(state)@) == take_range(old(state)@),
        final(state).cursor == old(state).cursor,
{
    let sel = match state.selection {
        Some(sel) => sel,
        None => return None,
    };
    state.selection = None;
    let (lo, hi) = selection_ordered(&sel);
    if lo < hi {
        Some((lo, hi))
    } else {
        state.selection = Some(sel);
        None
    }
}

fn inline_mut<'a>(doc: &'a mut Document, c: &Cursor) -> (r: Option<&'a mut String>)
    ensures
        r is Some <==> inline_leaf(old(doc)@, c@) is Some,
        r is None ==> final(doc)@ == old(doc)@,
        r matches Some(s) ==> Some((*s)@) == inline_leaf(old(doc)@, c@) && final(doc)@
            == with_leaf_text(old(doc)@, c@, (*final(s))@),
{
    if c.block_index >= doc.blocks.len() {
        return None;
    }
    let ghost bv = doc@.blocks;
    let b = &mut doc.blocks[c.block_index];
    match crate::cursor::block_inline_mut(b) {
        Some(il) => match crate::cursor::text_leaf_mut(il, c.inline_path.as_slice()) {
            Some((s, _)) => Some(s),
            None => None,
        },
        None => None,
    }
}

fn code_mut<'a>(doc: &'a mut Document, c: &Cursor) -> (r: Option<&'a mut String>)
    ensures
        r is Some <==> code_text(old(doc)@, c@) is Some,
        r is None ==> final(doc)@ == old(doc)@,
        r matches Some(s) ==> Some((*s)@) == code_text(old(doc)@, c@) && final(doc)@
            == with_leaf_text(old(doc)@, c@, (*final(s))@),
{
    if c.block_index >= doc.blocks.len() {
        return None;
    }
    match &mut doc.blocks[c.block_index] {
        Block::CodeBlock { text, .. } => Some(text),
        _ => None,
    }
}

/// The text addressed by the cursor (leaf or code block), mutably.
fn leaf_mut<'a>(doc: &'a mut Document, c: &Cursor) -> (r: Option<&'a mut String>)
    ensures
        r is Some <==> leaf_text(old(doc)@, c@) is Some,
        r is None ==> final(doc)@ == old(doc)@,
        r matches Some(s) ==> Some((*s)@) == leaf_text(old(doc)@, c@) && final(doc)@
            == with_leaf_text(old(doc)@, c@, (*final(s))@),
{
    let is_code = c.block_index < doc.blocks.len() && match &doc.blocks[c.block_index] {
        Block::CodeBlock { .. } => true,
        _ => false,
    };
    if is_code {
        code_mut(doc, c)
    } else {
        inline_mut(doc, c)
    }
}

fn insert_char(doc: &mut Document, state: &mut EditorState, ch: char) -> (r: bool)
    ensures
        (final(doc)@, final(state)@, r) == insert_char_spec(old(doc)@, old(state)@, ch),
{
    state.cursor.normalize(doc);
    proof {
        crate::cursor::lemma_normalized_leaf(old(state)@.cursor, doc@);
    }
    let ghost d0 = doc@;
    let ghost c = state.cursor@;
    if let Some(s) = leaf_mut(doc, &state.cursor) {
        let ghost t = s@;
        let off = state.cursor.offset;
        crate::text::string_insert(s, off, ch);
        let n = text_byte_len(s.as_str());
        proof {
            crate::text::lemma_boundary_index(t, off as int);
            crate::text::lemma_insert_offsets(t, char_index_at(t, off as int), ch);
        }
        state.cursor.offset = state.cursor.offset + crate::text::char_len_utf8(ch);
        return true;
    }
    false
}

fn backspace(doc: &mut Document, state: &mut EditorState) -> (r: bool)
    ensures
        (final(doc)@, final(state)@, r) == backspace_spec(old(doc)@, old(state)@),
{
    state.cursor.normalize(doc);
    proof {
        crate::cursor::lemma_normalized_leaf(old(state)@.cursor, doc@);
    }
    let has_leaf = match leaf_str(doc, &state.cursor) {
        Some(_) => true,
        None => false,
    };
    if has_leaf && state.cursor.offset > 0 {
        let off = state.cursor.offset;
        if let Some(s) = leaf_mut(doc, &state.cursor) {
            let ghost t = s@;
            let (k, prev) = floor_boundary(s.as_str(), off - 1);
            proof {
                crate::text::lemma_floor_char_index(t, off - 1);
                crate::text::lemma_boundary_index(t, off as int);
                let ko = char_index_at(t, off as int);
                crate::text::lemma_byte_offset_end(t);
                if k as int >= t.len() {
                    crate::text::lemma_byte_offset_mono(t, ko, t.len() as int);
                }
                lemma_char_index_at(t, k as int);
            }
            crate::text::string_remove(s, prev);
            state.cursor.offset = prev;
            return true;
        }
    }
    merge_with_previous_block(doc, state)
}

fn merge_with_previous_block(doc: &mut Document, state: &mut EditorState) -> (r: bool)
    requires
        old(state).cursor.block_index == 0 || old(state).cursor.block_index < old(doc).blocks@.len(),
    ensures
        (final(doc)@, final(state)@, r) == merge_spec(old(doc)@, old(state)@),
{
    let bi = state.cursor.block_index;
    if bi == 0 {
        return false;
    }
    // Join position is "end of previous block before merge". This avoids landing
    // on appended empty inline nodes, which can produce visually equivalent but
    // non-canonical cursor paths (and make cursor mapping flaky on empty lines).
    let mut jp: Vec<usize> = Vec::new();
    jp.push(usize::MAX);
    assert(jp@ =~= seq![usize::MAX]);
    let mut join_cursor = Cursor::new(bi - 1, jp, usize::MAX);
    join_cursor.normalize(doc);
    let ghost d0 = doc@;
    let ghost b0 = doc.blocks@;
    let cur = doc.blocks.remove(bi);
    match cur {
        Block::Paragraph(mut b) => {
            let ghost bvw = inlines_view(b@);
            let is_para = match &doc.blocks[bi - 1] {
                Block::Paragraph(_) => true,
                _ => false,
            };
            if is_para {
                match &mut doc.blocks[bi - 1] {
                    Block::Paragraph(a) => {
                        let ghost av = inlines_view(a@);
                        a.append(&mut b);
                        assert(inlines_view(a@) =~= av + bvw);
                    },
                    _ => {},
                }
                assert(doc@.blocks =~= d0.blocks.remove(bi as int).update(
                    bi - 1,
                    BlockView::Paragraph(
                        block_inlines(d0.blocks[bi - 1])->0 + block_inlines(d0.blocks[bi as int])->0,
                    ),
                ));
                state.cursor = join_cursor;
                state.cursor.normalize(doc);
                return true;
            }
            doc.blocks.insert(bi, Block::Paragraph(b));
            assert(doc.blocks@ =~= b0);
            false
        },
        other => {
            doc.blocks.insert(bi, other);
            assert(doc.blocks@ =~= b0);
            false
        },
    }
}

/// Deletes characters with global indices `[lo, hi)`. Cursor ends at gap `lo`.
fn delete_char_gap_range(doc: &mut Document, state: &mut EditorState, lo: usize, hi: usize) -> (r:
    bool)
    ensures
        (final(doc)@, final(state)@, r) == delete_range_spec(
            old(doc)@,
            old(state)@,
            lo as int,
            hi as int,
        ),
        r && lo < hi ==> doc_text(final(doc)@) == doc_text(old(doc)@).take(lo as int) + doc_text(
            old(doc)@,
        ).skip(hi as int),
{
    let ghost orig = doc_text(doc@);
    let ghost n0 = doc_chars(doc@).len();
    assert(orig.len() == n0);
    let mut end = hi;
    while end > lo
        invariant
            end <= hi,
            delete_range_spec(old(doc)@, old(state)@, lo as int, hi as int) == delete_range_spec(
                doc@,
                state@,
                lo as int,
                end as int,
            ),
            orig == doc_text(old(doc)@),
            n0 == doc_chars(old(doc)@).len(),
            hi <= n0 ==> doc_text(doc@) == orig.take(end as int) + orig.skip(hi as int),
            end < hi ==> hi <= n0,
            end == hi ==> doc@ == old(doc)@,
            orig.len() == n0,
            lo < hi ==> lo <= end,
        decreases end,
    {
        let flat = flatten_document_chars(doc);
        if end > flat.len() {
            return false;
        }
        let ghost d0 = doc@;
        let ghost k = end - 1;
        let c = copy_cursor(&flat[end - 1].0);
        assert(c@ == doc_chars(d0)[k].0);
        proof {
            crate::edit_laws::lemma_doc_fits(*doc);
            crate::edit_laws::lemma_cell_has_leaf(d0, k);
            if end == hi {
                assert(orig.take(end as int) + orig.skip(hi as int) =~= orig);
            }
        }
        if let Some(s) = leaf_mut(doc, &c) {
            let _len = text_byte_len(s.as_str());
            proof {
                crate::edit_laws::lemma_remove_char(d0, k);
            }
            let _removed = crate::text::string_remove(s, c.offset);
        }
        proof {
            assert(doc@ == remove_char_spec(d0, k));
            assert(hi <= n0);
            assert(doc_text(d0) == orig.take(end as int) + orig.skip(hi as int));
            assert(doc_text(doc@) == doc_text(d0).remove(k));
            assert(doc_text(doc@) =~= orig.take(k) + orig.skip(hi as int));
        }
        end = end - 1;
    }
    state.cursor = match gap_index_to_cursor(doc, lo) {
        Some(c) => c,
        None => return false,
    };
    true
}

fn newline(doc: &mut Document, state: &mut EditorState) -> (r: bool)
    ensures
        (final(doc)@, final(state)@, r) == newline_spec(old(doc)@, old(state)@),
{
    state.cursor.normalize(doc);
    proof {
        crate::cursor::lemma_normalized_leaf(old(state)@.cursor, doc@);
    }
    let bi = state.cursor.block_index;
    let path = state.cursor.inline_path.clone();
    assert(path@ =~= state.cursor.inline_path@);
    let off = state.cursor.offset;
    if bi >= doc.blocks.len() {
        return false;
    }
    let ghost d0 = doc@;
    let is_code = match &doc.blocks[bi] {
        Block::CodeBlock { .. } => true,
        _ => false,
    };
    if is_code {
        match &mut doc.blocks[bi] {
            Block::CodeBlock { text, .. } => {
                let n = text_byte_len(text.as_str());
                let o = if off > n {
                    n
                } else {
                    off
                };
                if char_index_of_offset(text.as_str(), o).is_none() {
                    return false;
                }
                crate::text::string_insert(text, o, '\n');
            },
            _ => {},
        }
        assert(doc@.blocks =~= newline_spec(d0, old(state)@).0.blocks);
        state.cursor.offset = state.cursor.offset + 1;
        return true;
    }
    let after = match &mut doc.blocks[bi] {
        Block::Paragraph(il) => split_paragraph_il(il, &path, off),
        Block::Heading { content, .. } => split_paragraph_il(content, &path, off),
        Block::CodeBlock { .. } => None,
    };
    match after {
        None => false,
        Some(after) => {
            doc.blocks.insert(bi + 1, Block::Paragraph(after));
            let mut p: Vec<usize> = Vec::new();
            p.push(0);
            assert(p@ =~= seq![0usize]);
            state.cursor = Cursor::new(bi + 1, p, 0);
            true
        },
    }
}

/// Split root-level `Text` at `path[0]`; left stays in `il`, returns new paragraph inlines for block below.
fn split_paragraph_il(il: &mut Vec<Inline>, path: &Vec<usize>, off: usize) -> (r: Option<Vec<Inline>>)
    ensures
        match split_spec(inlines_view(old(il)@), path@, off) {
            None => r is None && inlines_view(final(il)@) == inlines_view(old(il)@),
            Some((left, after)) => r matches Some(a) && inlines_view(final(il)@) == left
                && inlines_view(a@) == after,
        },
{
    if path.len() != 1 {
        return None;
    }
    let i = path[0];
    if i >= il.len() {
        return None;
    }
    let ghost iv = inlines_view(il@);
    let b = match &mut il[i] {
        Inline::Text(s) => {
            if char_index_of_offset(s.as_str(), off).is_none() {
                return None;
            }
            crate::text::string_split_off(s, off)
        },
        _ => return None,
    };
    let ghost left_v = inlines_view(il@);
    let mut rest = il.split_off(i + 1);
    let mut after: Vec<Inline> = Vec::new();
    let b_empty = b.as_str().is_empty();
    if !b_empty {
        after.push(Inline::Text(b));
    }
    after.append(&mut rest);
    if after.len() == 0 {
        after.push(Inline::empty_text());
    }
    Some(after)
}

fn toggle_wrap(doc: &mut Document, state: &mut EditorState, bold: bool) -> (r: bool)
    ensures
        (final(doc)@, final(state)@, r) == toggle_spec(old(doc)@, old(state)@, bold),
{
    state.cursor.normalize(doc);
    if state.cursor.inline_path.len() != 1 {
        return false;
    }
    let i = state.cursor.inline_path[0];
    let bi = state.cursor.block_index;
    let off = state.cursor.offset;
    if bi >= doc.blocks.len() {
        return false;
    }
    let ghost d0 = doc@;
    let ghost bv = d0.blocks[bi as int];
    let (before, after) = match crate::cursor::block_inline_slice(&doc.blocks[bi]) {
        None => return false,
        Some(il) => {
            if i >= il.len() {
                return false;
            }
            match &il[i] {
                Inline::Text(s) => {
                    if char_index_of_offset(s.as_str(), off).is_none() {
                        return false;
                    }
                    let mut before = s.clone();
                    let after = crate::text::string_split_off(&mut before, off);
                    (before, after)
                },
                _ => return false,
            }
        },
    };
    let ghost il0 = block_inlines(bv)->0;
    let ghost k = char_index_at(before@, off as int);
    let before_empty = before.as_str().is_empty();
    let mut mid_inner: Vec<Inline> = Vec::new();
    mid_inner.push(Inline::empty_text());
    assert(inlines_view(mid_inner@) =~= seq![InlineView::Text(Seq::empty())]);
    let mid = if bold {
        Inline::Bold(mid_inner)
    } else {
        Inline::Italic(mid_inner)
    };
    assert(mid@ == toggle_mid(bold));
    let mut rebuilt: Vec<Inline> = Vec::new();
    let ghost bview = before@;
    let ghost aview = after@;
    if !before_empty {
        rebuilt.push(Inline::Text(before));
    }
    rebuilt.push(mid);
    if !after.as_str().is_empty() {
        rebuilt.push(Inline::Text(after));
    }
    let ghost pre: Seq<InlineView> = if bview.len() > 0 {
        seq![InlineView::Text(bview)]
    } else {
        Seq::empty()
    };
    let ghost post: Seq<InlineView> = if aview.len() > 0 {
        seq![InlineView::Text(aview)]
    } else {
        Seq::empty()
    };
    assert(inlines_view(rebuilt@) =~= pre + seq![toggle_mid(bold)] + post);
    let mid_idx = if before_empty {
        i
    } else {
        i + 1
    };
    let ghost rv = inlines_view(rebuilt@);
    match crate::cursor::block_inline_mut(&mut doc.blocks[bi]) {
        Some(il) => {
            let ghost ilv = inlines_view(il@);
            let mut tail = il.split_off(i + 1);
            il.pop();
            il.append(&mut rebuilt);
            il.append(&mut tail);
            assert(inlines_view(il@) =~= ilv.take(i as int) + rv + ilv.skip(i + 1));
        },
        None => {},
    }
    let mut p: Vec<usize> = Vec::new();
    p.push(mid_idx);
    p.push(0);
    assert(p@ =~= seq![mid_idx, 0usize]);
    state.cursor.inline_path = p;
    state.cursor.offset = 0;
    true
}

pub fn reduce_edit(doc: &mut Document, state: &mut EditorState, op: EditOp) -> (r: bool)
    ensures
        (final(doc)@, final(state)@, r) == reduce_edit_spec(old(doc)@, old(state)@, op@),
{
    let ghost d0 = doc@;
    let ghost s0 = state@;
    let ghost opv = op@;
    let r = match op {
        EditOp::MoveCursor(_) => {
            return false;
        },
        EditOp::InsertChar(ch) => {
            state.cursor.normalize(doc);
            if let Some((lo, hi)) = take_non_empty_selection_range(state) {
                if !delete_char_gap_range(doc, state, lo, hi) {
                    return false;
                }
                if !insert_char(doc, state, ch) {
                    return false;
                }
            } else if !insert_char(doc, state, ch) {
                return false;
            }
            true
        },
        EditOp::Backspace => {
            state.cursor.normalize(doc);
            if let Some((lo, hi)) = take_non_empty_selection_range(state) {
                delete_char_gap_range(doc, state, lo, hi)
            } else {
                backspace(doc, state)
            }
        },
        EditOp::NewLine => {
            state.cursor.normalize(doc);
            if let Some((lo, hi)) = take_non_empty_selection_range(state) {
                if !delete_char_gap_range(doc, state, lo, hi) {
                    return false;
                }
                newline(doc, state)
            } else {
                newline(doc, state)
            }
        },
        EditOp::InsertBlock(i, block) => {
            state.selection = None;
            let i = if i > doc.blocks.len() {
                doc.blocks.len()
            } else {
                i
            };
            let ghost bv = block@;
            doc.blocks.insert(i, block);
            let mut p: Vec<usize> = Vec::new();
            p.push(0);
            assert(p@ =~= seq![0usize]);
            state.cursor = Cursor::new(i, p, 0);
            assert(doc@.blocks =~= d0.blocks.insert(i as int, bv));
            assert((doc@, state@, true) == edit_effect(d0, s0, opv));
            true
        },
        EditOp::DeleteBlock(i) => {
            state.selection = None;
            if i >= doc.blocks.len() {
                false
            } else {
                let _ = doc.blocks.remove(i);
                assert(doc@.blocks =~= d0.blocks.remove(i as int));
                if doc.blocks.len() == 0 {
                    let mut il: Vec<Inline> = Vec::new();
                    il.push(Inline::empty_text());
                    assert(inlines_view(il@) =~= seq![InlineView::Text(Seq::empty())]);
                    doc.blocks.push(Block::Paragraph(il));
                    assert(doc@.blocks =~= seq![crate::document::empty_paragraph()]);
                }
                let ni = if i >= doc.blocks.len() {
                    doc.blocks.len() - 1
                } else {
                    i
                };
                let mut p: Vec<usize> = Vec::new();
                p.push(0);
                assert(p@ =~= seq![0usize]);
                state.cursor = Cursor::new(ni, p, 0);
                state.cursor.normalize(doc);
                assert((doc@, state@, true) == edit_effect(d0, s0, opv));
                true
            }
        },
        EditOp::ToggleBold => toggle_wrap(doc, state, true),
        EditOp::ToggleItalic => toggle_wrap(doc, state, false),
    };
    assert((doc@, state@, r) == edit_effect(d0, s0, opv));
    if r {
        doc.bump_generation();
    }
    r
}

/// Moves the cursor of `state` by `m` over an existing layout of `doc`.
pub fn apply_cursor_move_in_layout(
    doc: &Document,
    laid: &LaidOutDocument,
    state: &mut EditorState,
    m: CursorMove,
)
    requires
        laid_fits(laid@),
    ensures
        final(state)@ == with_cursor(old(state)@, layout_move_target(doc@, laid@, old(state)@.cursor, m)),
{
    move_cursor_in_layout(doc, laid, &mut state.cursor, m);
}

/// Where move `m` puts cursor `c` in the default layout of `doc` at `width`.
pub open spec fn cursor_move_target(doc: DocumentView, width: u16, c: CursorView, m: CursorMove) -> CursorView {
    layout_move_target(doc, layout_view(doc, width, default_layout_config()), c, m)
}

/// Moves the cursor of `state` by `m`, laying out `doc` once at `layout_width`.
pub fn apply_cursor_move(doc: &Document, layout_width: u16, state: &mut EditorState, m: CursorMove)
    requires
        layout_fits(doc@, layout_width, default_layout_config()),
    ensures
        final(state)@ == with_cursor(old(state)@, cursor_move_target(doc@, layout_width, old(state)@.cursor, m)),
{
    let laid = layout_document(doc, layout_width, &LayoutConfig::default());
    apply_cursor_move_in_layout(doc, &laid, state, m);
}

/// Result of `reduce`: a cursor move always succeeds and leaves the document
/// as it is; every other op is `reduce_edit`.
pub open spec fn reduce_spec(doc: DocumentView, st: EditorStateView, op: EditOpView, width: u16) -> (
    DocumentView,
    EditorStateView,
    bool,
) {
    match op {
        EditOpView::MoveCursor(m) => (doc, with_cursor(st, cursor_move_target(doc, width, st.cursor, m)), true),
        _ => reduce_edit_spec(doc, st, op),
    }
}

/// Applies `op`: a cursor move over the layout at `layout_width`, or an edit.
/// Returns `true` when the op was a cursor move or a successful edit.
pub fn reduce(doc: &mut Document, state: &mut EditorState, op: EditOp, layout_width: u16) -> (r: bool)
    requires
        op@ is MoveCursor ==> layout_fits(old(doc)@, layout_width, default_layout_config()),
    ensures
        (final(doc)@, final(state)@, r) == reduce_spec(old(doc)@, old(state)@, op@, layout_width),
{
    match op {
        EditOp::MoveCursor(m) => {
            apply_cursor_move(doc, layout_width, state, m);
            true
        },
        _ => reduce_edit(doc, state, op),
    }
}

/// An edit that takes place moves the document to the next generation, which
/// differs from the current one; an edit that does not take place keeps it.
pub proof fn lemma_edit_generation(doc: DocumentView, st: EditorStateView, op: EditOpView)
    ensures
        reduce_edit_spec(doc, st, op).2 ==> reduce_edit_spec(doc, st, op).0.generation
            == next_generation(doc.generation),
        reduce_edit_spec(doc, st, op).2 ==> reduce_edit_spec(doc, st, op).0.generation
            != doc.generation,
        !reduce_edit_spec(doc, st, op).2 ==> reduce_edit_spec(doc, st, op).0.generation
            == doc.generation,
{
    lemma_effect_generation(doc, st, op);
}

proof fn lemma_effect_generation(doc: DocumentView, st: EditorStateView, op: EditOpView)
    ensures
        edit_effect(doc, st, op).0.generation == doc.generation,
{
    let st1 = with_cursor(st, normalized(st.cursor, doc));
    let tr = take_range(st1);
    match op {
        EditOpView::InsertChar(ch) => {
            lemma_insert_char_generation(doc, st1, ch);
            if let Some((lo, hi)) = tr.0 {
                lemma_delete_range_generation(doc, tr.1, lo as int, hi as int);
                let d = delete_range_spec(doc, tr.1, lo as int, hi as int);
                lemma_insert_char_generation(d.0, d.1, ch);
            }
        },
        EditOpView::Backspace => {
            lemma_backspace_generation(doc, st1);
            if let Some((lo, hi)) = tr.0 {
                lemma_delete_range_generation(doc, tr.1, lo as int, hi as int);
            }
        },
        EditOpView::NewLine => {
            lemma_newline_generation(doc, st1);
            if let Some((lo, hi)) = tr.0 {
                lemma_delete_range_generation(doc, tr.1, lo as int, hi as int);
                let d = delete_range_spec(doc, tr.1, lo as int, hi as int);
                lemma_newline_generation(d.0, d.1);
            }
        },
        EditOpView::ToggleBold => {
            lemma_toggle_generation(doc, st, true);
        },
        EditOpView::ToggleItalic => {
            lemma_toggle_generation(doc, st, false);
        },
        _ => {},
    }
}

proof fn lemma_insert_char_generation(doc: DocumentView, st: EditorStateView, ch: char)
    ensures
        insert_char_spec(doc, st, ch).0.generation == doc.generation,
{
}

proof fn lemma_backspace_generation(doc: DocumentView, st: EditorStateView)
    ensures
        backspace_spec(doc, st).0.generation == doc.generation,
{
}

proof fn lemma_newline_generation(doc: DocumentView, st: EditorStateView)
    ensures
        newline_spec(doc, st).0.generation == doc.generation,
{
}

proof fn lemma_toggle_generation(doc: DocumentView, st: EditorStateView, bold: bool)
    ensures
        toggle_spec(doc, st, bold).0.generation == doc.generation,
{
}

proof fn lemma_delete_range_generation(doc: DocumentView, st: EditorStateView, lo: int, end: int)
    ensures
        delete_range_spec(doc, st, lo, end).0.generation == doc.generation,
    decreases end - lo,
{
    if end > lo && end <= doc_chars(doc).len() {
        lemma_delete_range_generation(remove_char_spec(doc, end - 1), st, lo, end - 1);
    }
}

} // verus!
