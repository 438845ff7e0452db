//! AST-aware cursor: block index + path into inline tree + offset in leaf `Text`.

use vstd::prelude::*;

use crate::document::{
    block_view, inline_view, inlines_view, Block, BlockView, Document, DocumentView, Inline,
    InlineVec, InlineView,
};
use crate::text::{
    byte_offset_of, char_index_of_offset, floor_boundary, floor_char_index, is_char_boundary,
    lemma_byte_offset_le_len, lemma_floor_char_index, text_byte_len, utf8_len,
};

verus! {

/// Indices from the root `InlineVec` of the current block downward until a `Text` leaf.
#[derive(Clone, Debug, Default, PartialEq, Eq)]
pub struct Cursor {
    pub block_index: usize,
    /// Path of child indices: `inlines[path[0]]` then into nested vec at `path[1]`, etc.
    pub inline_path: Vec<usize>,
    /// Byte offset within the target `Text` leaf (UTF-8), or into `CodeBlock.text`.
    pub offset: usize,
}

/// Model of a cursor.
#[verifier::ext_equal]
pub struct CursorView {
    pub block_index: usize,
    pub inline_path: Seq<usize>,
    pub offset: usize,
}

impl View for Cursor {
    type V = CursorView;

    open spec fn view(&self) -> CursorView {
        CursorView {
            block_index: self.block_index,
            inline_path: self.inline_path@,
            offset: self.offset,
        }
    }
}

/// Children of a formatting node (`None` for a text leaf).
pub open spec fn children(x: InlineView) -> Option<Seq<InlineView>> {
    match x {
        InlineView::Text(_) => None,
        InlineView::Bold(v) => Some(v),
        InlineView::Italic(v) => Some(v),
        InlineView::Link { text, .. } => Some(text),
    }
}

/// `x` with its children replaced by `ch` (a text leaf is unchanged).
pub open spec fn with_children(x: InlineView, ch: Seq<InlineView>) -> InlineView {
    match x {
        InlineView::Text(s) => InlineView::Text(s),
        InlineView::Bold(_) => InlineView::Bold(ch),
        InlineView::Italic(_) => InlineView::Italic(ch),
        InlineView::Link { url, .. } => InlineView::Link { text: ch, url },
    }
}

/// The node reached from `inlines` by following `path` (each step but the last
/// enters the children of a formatting node).
pub open spec fn node_at(inlines: Seq<InlineView>, path: Seq<usize>) -> Option<InlineView>
    decreases path.len(),
{
    if path.len() == 0 || path[0] >= inlines.len() {
        None
    } else if path.len() == 1 {
        Some(inlines[path[0] as int])
    } else {
        match children(inlines[path[0] as int]) {
            Some(ch) => node_at(ch, path.drop_first()),
            None => None,
        }
    }
}

/// Text of the leaf at `path`, when `path` ends at a `Text` node.
pub open spec fn text_at(inlines: Seq<InlineView>, path: Seq<usize>) -> Option<Seq<char>> {
    match node_at(inlines, path) {
        Some(InlineView::Text(s)) => Some(s),
        _ => None,
    }
}

/// `inlines` with the text of the leaf at `path` replaced by `t`.
pub open spec fn with_text_at(inlines: Seq<InlineView>, path: Seq<usize>, t: Seq<char>) -> Seq<
    InlineView,
>
    decreases path.len(),
{
    if path.len() == 0 || path[0] >= inlines.len() {
        inlines
    } else if path.len() == 1 {
        inlines.update(path[0] as int, InlineView::Text(t))
    } else {
        match children(inlines[path[0] as int]) {
            Some(ch) => inlines.update(
                path[0] as int,
                with_children(inlines[path[0] as int], with_text_at(ch, path.drop_first(), t)),
            ),
            None => inlines,
        }
    }
}

/// Inline content of a paragraph or heading.
pub open spec fn block_inlines(b: BlockView) -> Option<Seq<InlineView>> {
    match b {
        BlockView::Paragraph(v) => Some(v),
        BlockView::Heading { content, .. } => Some(content),
        BlockView::CodeBlock { .. } => None,
    }
}

/// `b` with its inline content replaced by `v` (a code block is unchanged).
pub open spec fn with_block_inlines(b: BlockView, v: Seq<InlineView>) -> BlockView {
    match b {
        BlockView::Paragraph(_) => BlockView::Paragraph(v),
        BlockView::Heading { level, .. } => BlockView::Heading { level, content: v },
        BlockView::CodeBlock { lang, text } => BlockView::CodeBlock { lang, text },
    }
}

/// Offset in a text leaf after normalization: clamped to the end of the
/// leaf, then moved back to the last char boundary at or before it.
pub open spec fn snap_text_offset(s: Seq<char>, off: usize) -> usize {
    let o = if off > utf8_len(s) {
        utf8_len(s) as int
    } else {
        off as int
    };
    byte_offset_of(s, floor_char_index(s, o)) as usize
}

/// Offset in a code block after normalization: the last char boundary at or
/// before `off` clamped to the end of the text.
pub open spec fn snap_code_offset(s: Seq<char>, off: usize) -> usize {
    let o = if off > utf8_len(s) {
        utf8_len(s) as int
    } else {
        off as int
    };
    byte_offset_of(s, floor_char_index(s, o)) as usize
}

/// Index chosen at one level: the requested index clamped into the children
/// (the first child when the path has no entry for this level).
pub open spec fn clamp_child(path: Seq<usize>, len: nat) -> usize {
    if path.len() == 0 {
        0
    } else if path[0] >= len {
        (len - 1) as usize
    } else {
        path[0]
    }
}

/// Normalized path and offset below the top level of an inline tree: each
/// level clamps its index, descending until a text leaf or an empty
/// formatting node.
pub open spec fn normalize_below(inlines: Seq<InlineView>, path: Seq<usize>, off: usize) -> (
    Seq<usize>,
    usize,
)
    decreases inlines, 0nat,
{
    if inlines.len() == 0 {
        (Seq::empty(), 0)
    } else {
        let idx = clamp_child(path, inlines.len());
        let rest = if path.len() == 0 {
            Seq::<usize>::empty()
        } else {
            path.drop_first()
        };
        if 0 <= idx < inlines.len() {
            match inlines[idx as int] {
                InlineView::Text(s) => (seq![idx], snap_text_offset(s, off)),
                InlineView::Bold(v) => normalize_into(idx, v, rest, off),
                InlineView::Italic(v) => normalize_into(idx, v, rest, off),
                InlineView::Link { text, .. } => normalize_into(idx, text, rest, off),
            }
        } else {
            (Seq::empty(), 0)
        }
    }
}

/// Normalization descending into the children `v` of the node at `idx`.
pub open spec fn normalize_into(idx: usize, v: Seq<InlineView>, rest: Seq<usize>, off: usize) -> (
    Seq<usize>,
    usize,
)
    decreases v, 1nat,
{
    if v.len() == 0 {
        (seq![idx], 0)
    } else {
        let r = normalize_below(v, rest, off);
        (seq![idx] + r.0, r.1)
    }
}

/// Top-level path request: an empty path starts at the first child; an index
/// past the end selects the last child and drops the deeper entries.
pub open spec fn top_level_path(path: Seq<usize>, len: nat) -> Seq<usize> {
    if path.len() == 0 {
        seq![0]
    } else if path[0] >= len {
        seq![(len - 1) as usize]
    } else {
        path
    }
}

/// Normalized path and offset in the inline content of a block.
pub open spec fn normalize_in_tree(inlines: Seq<InlineView>, path: Seq<usize>, off: usize) -> (
    Seq<usize>,
    usize,
) {
    if inlines.len() == 0 {
        (Seq::empty(), 0)
    } else {
        normalize_below(inlines, top_level_path(path, inlines.len()), off)
    }
}

/// The cursor that `Cursor::normalize` produces for `c` in `doc`.
pub open spec fn normalized(c: CursorView, doc: DocumentView) -> CursorView {
    if doc.blocks.len() == 0 {
        CursorView { block_index: 0, inline_path: Seq::empty(), offset: 0 }
    } else {
        let bi = if c.block_index >= doc.blocks.len() {
            (doc.blocks.len() - 1) as usize
        } else {
            c.block_index
        };
        match doc.blocks[bi as int] {
            BlockView::CodeBlock { text, .. } => CursorView {
                block_index: bi,
                inline_path: Seq::empty(),
                offset: snap_code_offset(text, c.offset),
            },
            BlockView::Paragraph(il) => {
                let r = normalize_in_tree(il, c.inline_path, c.offset);
                CursorView { block_index: bi, inline_path: r.0, offset: r.1 }
            },
            BlockView::Heading { content, .. } => {
                let r = normalize_in_tree(content, c.inline_path, c.offset);
                CursorView { block_index: bi, inline_path: r.0, offset: r.1 }
            },
        }
    }
}

/// Unfolds `node_at` / `text_at` one level.
pub proof fn lemma_node_at_step(inlines: Seq<InlineView>, path: Seq<usize>)
    requires
        path.len() > 1,
        path[0] < inlines.len(),
        children(inlines[path[0] as int]) is Some,
    ensures
        node_at(inlines, path) == node_at(
            children(inlines[path[0] as int])->0,
            path.drop_first(),
        ),
{
}

/// Text that the cursor addresses: its text leaf, or the text of its code block.
pub open spec fn leaf_text(doc: DocumentView, c: CursorView) -> Option<Seq<char>> {
    if c.block_index >= doc.blocks.len() {
        None
    } else {
        match doc.blocks[c.block_index as int] {
            BlockView::CodeBlock { text, .. } => Some(text),
            BlockView::Paragraph(il) => text_at(il, c.inline_path),
            BlockView::Heading { content, .. } => text_at(content, c.inline_path),
        }
    }
}


/// The normalized offset in a text leaf is a char boundary of it.
pub proof fn lemma_snap_text_boundary(s: Seq<char>, off: usize)
    ensures
        is_char_boundary(s, snap_text_offset(s, off) as int),
        snap_text_offset(s, off) <= utf8_len(s),
{
    let o = if off > utf8_len(s) {
        utf8_len(s) as int
    } else {
        off as int
    };
    lemma_floor_char_index(s, o);
    let k = floor_char_index(s, o);
    lemma_byte_offset_le_len(s, k);
    assert(byte_offset_of(s, k) == snap_text_offset(s, off));
}

/// The normalized offset in a code block is a char boundary of its text.
pub proof fn lemma_snap_code_boundary(s: Seq<char>, off: usize)
    ensures
        is_char_boundary(s, snap_code_offset(s, off) as int),
        snap_code_offset(s, off) <= utf8_len(s),
{
    let o = if off > utf8_len(s) {
        utf8_len(s) as int
    } else {
        off as int
    };
    lemma_floor_char_index(s, o);
    let k = floor_char_index(s, o);
    lemma_byte_offset_le_len(s, k);
    assert(byte_offset_of(s, k) == snap_code_offset(s, off));
}

/// Normalization below the top level ends at a text leaf with a snapped
/// offset, or at an empty formatting node.
pub proof fn lemma_normalize_below_leaf(inlines: Seq<InlineView>, path: Seq<usize>, off: usize)
    ensures
        inlines.len() > 0 ==> normalize_below(inlines, path, off).0.len() >= 1,
        text_at(inlines, normalize_below(inlines, path, off).0) matches Some(s) ==> normalize_below(
            inlines,
            path,
            off,
        ).1 == snap_text_offset(s, off),
    decreases inlines, 0nat,
{
    if inlines.len() > 0 {
        let idx = clamp_child(path, inlines.len());
        let rest = if path.len() == 0 {
            Seq::<usize>::empty()
        } else {
            path.drop_first()
        };
        match inlines[idx as int] {
            InlineView::Text(s) => {},
            InlineView::Bold(v) => lemma_normalize_into_leaf(inlines, idx, v, rest, off),
            InlineView::Italic(v) => lemma_normalize_into_leaf(inlines, idx, v, rest, off),
            InlineView::Link { text, .. } => lemma_normalize_into_leaf(inlines, idx, text, rest, off),
        }
    }
}

pub proof fn lemma_normalize_into_leaf(
    inlines: Seq<InlineView>,
    idx: usize,
    v: Seq<InlineView>,
    rest: Seq<usize>,
    off: usize,
)
    requires
        idx < inlines.len(),
        children(inlines[idx as int]) == Some(v),
    ensures
        normalize_into(idx, v, rest, off).0.len() >= 1,
        normalize_into(idx, v, rest, off).0[0] == idx,
        text_at(inlines, normalize_into(idx, v, rest, off).0) matches Some(s) ==> normalize_into(
            idx,
            v,
            rest,
            off,
        ).1 == snap_text_offset(s, off),
    decreases v, 1nat,
{
    if v.len() > 0 {
        lemma_normalize_below_leaf(v, rest, off);
        let r = normalize_below(v, rest, off);
        let p = seq![idx] + r.0;
        assert(p.drop_first() =~= r.0);
        assert(p[0] == idx);
        lemma_node_at_step(inlines, p);
    }
}

/// A normalized cursor lies in an existing block, and its offset is a char
/// boundary of the text it addresses.
pub proof fn lemma_normalized_leaf(c: CursorView, doc: DocumentView)
    ensures
        doc.blocks.len() > 0 ==> normalized(c, doc).block_index < doc.blocks.len(),
        leaf_text(doc, normalized(c, doc)) matches Some(t) ==> is_char_boundary(
            t,
            normalized(c, doc).offset as int,
        ) && normalized(c, doc).offset <= utf8_len(t),
{
    let n = normalized(c, doc);
    if doc.blocks.len() > 0 {
        let bi = n.block_index;
        match doc.blocks[bi as int] {
            BlockView::CodeBlock { text, .. } => {
                lemma_snap_code_boundary(text, c.offset);
            },
            BlockView::Paragraph(il) => {
                if il.len() > 0 {
                    lemma_normalize_below_leaf(il, top_level_path(c.inline_path, il.len()), c.offset);
                    if let Some(t) = text_at(il, n.inline_path) {
                        lemma_snap_text_boundary(t, c.offset);
                    }
                }
            },
            BlockView::Heading { content, .. } => {
                if content.len() > 0 {
                    lemma_normalize_below_leaf(
                        content,
                        top_level_path(c.inline_path, content.len()),
                        c.offset,
                    );
                    if let Some(t) = text_at(content, n.inline_path) {
                        lemma_snap_text_boundary(t, c.offset);
                    }
                }
            },
        }
    }
}

proof fn lemma_normalize_below_off_text(inlines: Seq<InlineView>, path: Seq<usize>, off: usize)
    ensures
        text_at(inlines, normalize_below(inlines, path, off).0) is None ==> normalize_below(
            inlines,
            path,
            off,
        ).1 == 0,
    decreases inlines, 0nat,
{
    if inlines.len() > 0 {
        let idx = clamp_child(path, inlines.len());
        let rest = if path.len() == 0 {
            Seq::<usize>::empty()
        } else {
            path.drop_first()
        };
        match inlines[idx as int] {
            InlineView::Text(_) => {},
            InlineView::Bold(v) => lemma_normalize_into_off_text(inlines, idx, v, rest, off),
            InlineView::Italic(v) => lemma_normalize_into_off_text(inlines, idx, v, rest, off),
            InlineView::Link { text, .. } => lemma_normalize_into_off_text(inlines, idx, text, rest, off),
        }
    }
}

proof fn lemma_normalize_into_off_text(
    inlines: Seq<InlineView>,
    idx: usize,
    v: Seq<InlineView>,
    rest: Seq<usize>,
    off: usize,
)
    requires
        idx < inlines.len(),
        children(inlines[idx as int]) == Some(v),
    ensures
        text_at(inlines, normalize_into(idx, v, rest, off).0) is None ==> normalize_into(
            idx,
            v,
            rest,
            off,
        ).1 == 0,
    decreases v, 1nat,
{
    if v.len() > 0 {
        lemma_normalize_below_leaf(v, rest, off);
        lemma_normalize_below_off_text(v, rest, off);
        let r = normalize_below(v, rest, off);
        let p = seq![idx] + r.0;
        assert(p.drop_first() =~= r.0);
        assert(p[0] == idx);
        lemma_node_at_step(inlines, p);
    }
}

/// `Cursor::normalize` always gives a valid caret: in an empty document the
/// start; otherwise an existing block, and there a code block's caret has no
/// path and a char boundary of its text, and a paragraph's or heading's
/// caret a char boundary of the text leaf its path reaches, or offset 0 where
/// the path reaches no text (empty content or an empty formatting node).
pub proof fn lemma_normalized_valid(c: CursorView, doc: DocumentView)
    ensures
        ({
            let n = normalized(c, doc);
            &&& doc.blocks.len() == 0 ==> n == CursorView {
                block_index: 0,
                inline_path: Seq::empty(),
                offset: 0,
            }
            &&& doc.blocks.len() > 0 ==> {
                &&& n.block_index < doc.blocks.len()
                &&& match doc.blocks[n.block_index as int] {
                    BlockView::CodeBlock { text, .. } => {
                        &&& n.inline_path.len() == 0
                        &&& n.offset <= utf8_len(text)
                        &&& is_char_boundary(text, n.offset as int)
                    },
                    BlockView::Paragraph(il) => match text_at(il, n.inline_path) {
                        Some(s) => n.offset <= utf8_len(s) && is_char_boundary(s, n.offset as int),
                        None => n.offset == 0,
                    },
                    BlockView::Heading { content, .. } => match text_at(content, n.inline_path) {
                        Some(s) => n.offset <= utf8_len(s) && is_char_boundary(s, n.offset as int),
                        None => n.offset == 0,
                    },
                }
            }
        }),
{
    lemma_normalized_leaf(c, doc);
    if doc.blocks.len() > 0 {
        let n = normalized(c, doc);
        match doc.blocks[n.block_index as int] {
            BlockView::CodeBlock { .. } => {},
            BlockView::Paragraph(il) => {
                if il.len() > 0 {
                    lemma_normalize_below_off_text(il, top_level_path(c.inline_path, il.len()), c.offset);
                }
            },
            BlockView::Heading { content, .. } => {
                if content.len() > 0 {
                    lemma_normalize_below_off_text(
                        content,
                        top_level_path(c.inline_path, content.len()),
                        c.offset,
                    );
                }
            },
        }
    }
}

impl Cursor {
    pub fn new(block_index: usize, inline_path: Vec<usize>, offset: usize) -> (c: Self)
        ensures
            c.block_index == block_index,
            c.inline_path@ == inline_path@,
            c.offset == offset,
    {
        Self { block_index, inline_path, offset }
    }

    /// Clamp cursor so it points at valid UTF-8 boundary in existing document.
    pub fn normalize(&mut self, doc: &Document)
        ensures
            final(self)@ == normalized(old(self)@, doc@),
    {
        if doc.blocks.len() == 0 {
            self.block_index = 0;
            self.inline_path = Vec::new();
            self.offset = 0;
            return;
        }
        if self.block_index >= doc.blocks.len() {
            self.block_index = doc.blocks.len() - 1;
        }
        let bi = self.block_index;
        match &doc.blocks[bi] {
            Block::Paragraph(inlines) => {
                let (p, o) = normalize_in_inline_tree(inlines.as_slice(), &self.inline_path, self.offset);
                self.inline_path = p;
                self.offset = o;
            },
            Block::Heading { content: inlines, .. } => {
                let (p, o) = normalize_in_inline_tree(inlines.as_slice(), &self.inline_path, self.offset);
                self.inline_path = p;
                self.offset = o;
            },
            Block::CodeBlock { text, .. } => {
                self.inline_path = Vec::new();
                self.offset = snap_code(text.as_str(), self.offset);
            },
        }
    }
}

/// Exact copy of a cursor.
pub fn copy_cursor(c: &Cursor) -> (r: Cursor)
    ensures
        r@ == c@,
{
    let p = c.inline_path.clone();
    assert(p@ =~= c.inline_path@);
    Cursor { block_index: c.block_index, inline_path: p, offset: c.offset }
}

/// Whether two cursors are equal (same block, path and offset).
pub fn cursor_eq(a: &Cursor, b: &Cursor) -> (r: bool)
    ensures
        r == (a@ == b@),
{
    if a.block_index != b.block_index || a.offset != b.offset {
        return false;
    }
    let eq = path_eq(&a.inline_path, &b.inline_path);
    eq
}

/// Whether two paths are equal.
pub fn path_eq(a: &Vec<usize>, b: &Vec<usize>) -> (r: bool)
    ensures
        r == (a@ == b@),
{
    if a.len() != b.len() {
        return false;
    }
    let mut i: usize = 0;
    while i < a.len()
        invariant
            a@.len() == b@.len(),
            i <= a@.len(),
            forall|j: int| 0 <= j < i ==> a@[j] == b@[j],
        decreases a@.len() - i,
    {
        if a[i] != b[i] {
            return false;
        }
        i = i + 1;
    }
    assert(a@ =~= b@);
    true
}

/// Offset snapped inside a text leaf (see `snap_text_offset`).
fn snap_text(s: &str, off: usize) -> (r: usize)
    ensures
        r == snap_text_offset(s@, off),
{
    let n = text_byte_len(s);
    let o = if off > n {
        n
    } else {
        off
    };
    let (_k, b) = floor_boundary(s, o);
    b
}

/// Offset snapped inside a code block (see `snap_code_offset`).
fn snap_code(s: &str, off: usize) -> (r: usize)
    ensures
        r == snap_code_offset(s@, off),
{
    let n = text_byte_len(s);
    let o = if off > n {
        n
    } else {
        off
    };
    let (_k, b) = floor_boundary(s, o);
    b
}

fn normalize_in_inline_tree(inlines: &[Inline], path: &Vec<usize>, offset: usize) -> (r: (
    Vec<usize>,
    usize,
))
    ensures
        (r.0@, r.1) == normalize_in_tree(inlines_view(inlines@), path@, offset),
{
    if inlines.len() == 0 {
        return (Vec::new(), 0);
    }
    let mut top: Vec<usize> = Vec::new();
    if path.len() == 0 {
        top.push(0);
    } else if path[0] >= inlines.len() {
        top.push(inlines.len() - 1);
    } else {
        top = path.clone();
        assert(top@ =~= path@);
    }
    assert(top@ =~= top_level_path(path@, inlines@.len()));
    assert(top@.skip(0) =~= top@);
    normalize_level(inlines, &top, 0, offset)
}

/// Normalization at one level below the top; `path@.skip(d)` is the request for this level.
fn normalize_level(inlines: &[Inline], path: &Vec<usize>, d: usize, offset: usize) -> (r: (
    Vec<usize>,
    usize,
))
    requires
        d <= path@.len(),
    ensures
        (r.0@, r.1) == normalize_below(inlines_view(inlines@), path@.skip(d as int), offset),
    decreases inlines@, 0nat,
{
    let ghost iv = inlines_view(inlines@);
    let ghost req = path@.skip(d as int);
    if inlines.len() == 0 {
        return (Vec::new(), 0);
    }
    let idx = if d >= path.len() {
        0
    } else if path[d] >= inlines.len() {
        inlines.len() - 1
    } else {
        path[d]
    };
    assert(idx == clamp_child(req, iv.len()));
    let ghost rest = if req.len() == 0 {
        Seq::<usize>::empty()
    } else {
        req.drop_first()
    };
    let nd = if d >= path.len() {
        d
    } else {
        d + 1
    };
    assert(path@.skip(nd as int) =~= rest);
    let mut out: Vec<usize> = Vec::new();
    out.push(idx);
    match &inlines[idx] {
        Inline::Text(s) => {
            let o = snap_text(s.as_str(), offset);
            assert(out@ =~= seq![idx]);
            (out, o)
        },
        Inline::Bold(v) => normalize_child(idx, v, path, nd, offset),
        Inline::Italic(v) => normalize_child(idx, v, path, nd, offset),
        Inline::Link { text, .. } => normalize_child(idx, text, path, nd, offset),
    }
}

/// Normalization into the children `v` of the node at `idx`.
fn normalize_child(idx: usize, v: &Vec<Inline>, path: &Vec<usize>, d: usize, offset: usize) -> (r: (
    Vec<usize>,
    usize,
))
    requires
        d <= path@.len(),
    ensures
        (r.0@, r.1) == normalize_into(idx, inlines_view(v@), path@.skip(d as int), offset),
    decreases v@, 1nat,
{
    let mut out: Vec<usize> = Vec::new();
    out.push(idx);
    if v.len() == 0 {
        assert(out@ =~= seq![idx]);
        return (out, 0);
    }
    let (mut p, o) = normalize_level(v.as_slice(), path, d, offset);
    let ghost pv = p@;
    out.append(&mut p);
    assert(out@ =~= seq![idx] + pv);
    (out, o)
}

/// Walk `inlines` following `path`; returns mutable reference to leaf `String` if path ends at `Text`.
pub fn text_leaf_mut<'a>(inlines: &'a mut Vec<Inline>, path: &[usize]) -> (r: Option<
    (&'a mut String, usize),
>)
    ensures
        r is Some <==> text_at(inlines_view(old(inlines)@), path@) is Some,
        r is None ==> inlines_view(final(inlines)@) == inlines_view(old(inlines)@),
        r matches Some(p) ==> Some((*p.0)@) == text_at(inlines_view(old(inlines)@), path@) && p.1
            == path@.last() && inlines_view(final(inlines)@) == with_text_at(
            inlines_view(old(inlines)@),
            path@,
            (*final(p.0))@,
        ),
{
    if path.len() == 0 {
        return None;
    }
    assert(path@.skip(0) =~= path@);
    leaf_mut_at(inlines, path, 0)
}

fn leaf_mut_at<'a>(inlines: &'a mut Vec<Inline>, path: &[usize], d: usize) -> (r: Option<
    (&'a mut String, usize),
>)
    requires
        d < path@.len(),
    ensures
        r is Some <==> text_at(inlines_view(old(inlines)@), path@.skip(d as int)) is Some,
        r is None ==> inlines_view(final(inlines)@) == inlines_view(old(inlines)@),
        r matches Some(p) ==> Some((*p.0)@) == text_at(
            inlines_view(old(inlines)@),
            path@.skip(d as int),
        ) && p.1 == path@.last() && inlines_view(final(inlines)@) == with_text_at(
            inlines_view(old(inlines)@),
            path@.skip(d as int),
            (*final(p.0))@,
        ),
    decreases path@.len() - d,
{
    let ghost sfx = path@.skip(d as int);
    let idx = path[d];
    if idx >= inlines.len() {
        return None;
    }
    assert(sfx.drop_first() =~= path@.skip(d + 1));
    if d + 1 == path.len() {
        match &mut inlines[idx] {
            Inline::Text(s) => Some((s, idx)),
            _ => None,
        }
    } else {
        match &mut inlines[idx] {
            Inline::Bold(v) => leaf_mut_at(v, path, d + 1),
            Inline::Italic(v) => leaf_mut_at(v, path, d + 1),
            Inline::Link { text, .. } => leaf_mut_at(text, path, d + 1),
            Inline::Text(_) => None,
        }
    }
}

/// Read-only: byte length of text leaf at path.
pub fn text_leaf_len(inlines: &[Inline], path: &[usize]) -> (r: Option<usize>)
    ensures
        match text_at(inlines_view(inlines@), path@) {
            Some(t) => r == Some(utf8_len(t) as usize) && utf8_len(t) <= usize::MAX,
            None => r is None,
        },
{
    match get_text_at_path(inlines, path) {
        Some(s) => Some(text_byte_len(s)),
        None => None,
    }
}

pub fn block_inline_mut(block: &mut Block) -> (r: Option<&mut InlineVec>)
    ensures
        r is Some <==> block_inlines(old(block)@) is Some,
        r is None ==> final(block)@ == old(block)@,
        r matches Some(v) ==> block_inlines(old(block)@) == Some(inlines_view((*v)@))
            && final(block)@ == with_block_inlines(old(block)@, inlines_view((*final(v))@)),
{
    match block {
        Block::Paragraph(v) => Some(v),
        Block::Heading { content: v, .. } => Some(v),
        Block::CodeBlock { .. } => None,
    }
}

pub fn block_inline_slice(block: &Block) -> (r: Option<&[Inline]>)
    ensures
        match block_inlines(block@) {
            Some(v) => r matches Some(s) && inlines_view(s@) == v,
            None => r is None,
        },
{
    match block {
        Block::Paragraph(v) => Some(v.as_slice()),
        Block::Heading { content: v, .. } => Some(v.as_slice()),
        Block::CodeBlock { .. } => None,
    }
}

pub fn get_text_at_path<'a>(inlines: &'a [Inline], path: &[usize]) -> (r: Option<&'a str>)
    ensures
        match text_at(inlines_view(inlines@), path@) {
            Some(t) => r matches Some(s) && s@ == t,
            None => r is None,
        },
{
    if path.len() == 0 {
        return None;
    }
    let mut slice: &[Inline] = inlines;
    let mut d: usize = 0;
    assert(path@.skip(0) =~= path@);
    while d < path.len()
        invariant
            0 < path@.len(),
            d < path@.len(),
            text_at(inlines_view(inlines@), path@) == text_at(
                inlines_view(slice@),
                path@.skip(d as int),
            ),
        decreases path@.len() - d,
    {
        let ghost sfx = path@.skip(d as int);
        assert(sfx.drop_first() =~= path@.skip(d + 1));
        let idx = path[d];
        if idx >= slice.len() {
            return None;
        }
        let last = d + 1 == path.len();
        match &slice[idx] {
            Inline::Text(s) => {
                if last {
                    return Some(s.as_str());
                }
                return None;
            },
            Inline::Bold(v) => {
                if last {
                    return None;
                }
                slice = v.as_slice();
            },
            Inline::Italic(v) => {
                if last {
                    return None;
                }
                slice = v.as_slice();
            },
            Inline::Link { text, .. } => {
                if last {
                    return None;
                }
                slice = text.as_slice();
            },
        }
        d = d + 1;
    }
    None
}

} // verus!
