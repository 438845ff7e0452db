//! What edits do to the document's text.

use vstd::prelude::*;

use crate::cursor::{
    node_at, normalize_below, normalize_in_tree, snap_code_offset, snap_text_offset,
    top_level_path, lemma_node_at_step,
    block_inlines, children, leaf_text, lemma_normalize_below_leaf, lemma_normalized_leaf, normalized, text_at, with_block_inlines,
    with_children, with_text_at, CursorView,
};
use crate::document::{block_view, inline_view, inlines_view, Block, BlockView, Document, DocumentView, Inline, InlineView};
use crate::edit::{
    cell_ends_at, cell_starts_at, cursor_at_gap, gap_index_of, remove_char_spec, with_offset,
    backspace_spec, insert_char_spec, merge_spec, newline_spec, reduce_edit_spec, split_spec,
    take_range, toggle_mid, toggle_spec, with_cursor, with_leaf_text, EditOpView, EditorStateView,
};
use crate::layout::{after_char, doc_chars, doc_text, flatten_block, flatten_blocks, flatten_node, flatten_seq, text_cells};
use crate::search::{first_index, lemma_first_index_extends, lemma_first_index_props};
use crate::text::{
    byte_offset_of, char_index_at, char_utf8_len, floor_char_index, is_char_boundary, lemma_boundary_index,
    lemma_byte_offset_le_len, lemma_byte_offset_mono, lemma_floor_char_index, lemma_insert_offsets,
    utf8_len,
};

verus! {

/// The chars of an inline node, in order.
pub open spec fn node_text(x: InlineView) -> Seq<char>
    decreases x, 0int,
{
    match x {
        InlineView::Text(t) => t,
        InlineView::Bold(v) => inline_text(v),
        InlineView::Italic(v) => inline_text(v),
        InlineView::Link { text, .. } => inline_text(text),
    }
}

/// The chars of an inline sequence, in order.
pub open spec fn inline_text(s: Seq<InlineView>) -> Seq<char>
    decreases s, 1int,
{
    if s.len() == 0 {
        Seq::empty()
    } else {
        inline_text(s.drop_last()) + node_text(s.last())
    }
}

/// The chars of a block, in order.
pub open spec fn block_chars(b: BlockView) -> Seq<char> {
    match b {
        BlockView::Paragraph(il) => inline_text(il),
        BlockView::Heading { content, .. } => inline_text(content),
        BlockView::CodeBlock { text, .. } => text,
    }
}

/// The chars of the blocks, block after block.
pub open spec fn blocks_text(blocks: Seq<BlockView>) -> Seq<char>
    decreases blocks.len(),
{
    if blocks.len() == 0 {
        Seq::empty()
    } else {
        blocks_text(blocks.drop_last()) + block_chars(blocks.last())
    }
}

/// The chars of cells.
pub open spec fn cell_chars(cells: Seq<(CursorView, char)>) -> Seq<char> {
    cells.map_values(|p: (CursorView, char)| p.1)
}

proof fn lemma_cell_chars_concat(a: Seq<(CursorView, char)>, b: Seq<(CursorView, char)>)
    ensures
        cell_chars(a + b) == cell_chars(a) + cell_chars(b),
{
    assert(cell_chars(a + b) =~= cell_chars(a) + cell_chars(b));
}

proof fn lemma_text_cells_chars(bi: usize, path: Seq<usize>, t: Seq<char>)
    ensures
        cell_chars(text_cells(bi, path, t)) == t,
{
    assert(cell_chars(text_cells(bi, path, t)) =~= t);
}

proof fn lemma_node_chars(bi: usize, path: Seq<usize>, x: InlineView)
    ensures
        cell_chars(flatten_node(bi, path, x)) == node_text(x),
    decreases x, 0int,
{
    match x {
        InlineView::Text(t) => lemma_text_cells_chars(bi, path, t),
        InlineView::Bold(v) => {
            lemma_seq_chars(bi, path, v, v.len() as int);
            assert(v.take(v.len() as int) =~= v);
        },
        InlineView::Italic(v) => {
            lemma_seq_chars(bi, path, v, v.len() as int);
            assert(v.take(v.len() as int) =~= v);
        },
        InlineView::Link { text, .. } => {
            lemma_seq_chars(bi, path, text, text.len() as int);
            assert(text.take(text.len() as int) =~= text);
        },
    }
}

proof fn lemma_seq_chars(bi: usize, prefix: Seq<usize>, s: Seq<InlineView>, n: int)
    requires
        0 <= n <= s.len(),
    ensures
        cell_chars(flatten_seq(bi, prefix, s, n)) == inline_text(s.take(n)),
    decreases s, 1int, n,
{
    if n == 0 {
        assert(s.take(0) =~= Seq::<InlineView>::empty());
        assert(cell_chars(Seq::<(CursorView, char)>::empty()) =~= Seq::<char>::empty());
    } else {
        lemma_seq_chars(bi, prefix, s, n - 1);
        assert(s[n - 1] == s[n - 1]);
        lemma_node_chars(bi, prefix.push((n - 1) as usize), s[n - 1]);
        lemma_cell_chars_concat(
            flatten_seq(bi, prefix, s, n - 1),
            flatten_node(bi, prefix.push((n - 1) as usize), s[n - 1]),
        );
        assert(s.take(n).drop_last() =~= s.take(n - 1));
        assert(s.take(n).last() == s[n - 1]);
    }
}

/// The chars of a block's cells are the block's chars.
pub proof fn lemma_block_cell_chars(bi: usize, b: BlockView)
    ensures
        cell_chars(flatten_block(bi, b)) == block_chars(b),
{
    match b {
        BlockView::Paragraph(il) => {
            lemma_seq_chars(bi, Seq::empty(), il, il.len() as int);
            assert(il.take(il.len() as int) =~= il);
        },
        BlockView::Heading { content, .. } => {
            lemma_seq_chars(bi, Seq::empty(), content, content.len() as int);
            assert(content.take(content.len() as int) =~= content);
        },
        BlockView::CodeBlock { text, .. } => lemma_text_cells_chars(bi, Seq::empty(), text),
    }
}

proof fn lemma_blocks_cell_chars(blocks: Seq<BlockView>, n: int)
    requires
        0 <= n <= blocks.len(),
    ensures
        cell_chars(flatten_blocks(blocks, n)) == blocks_text(blocks.take(n)),
    decreases n,
{
    if n == 0 {
        assert(cell_chars(Seq::<(CursorView, char)>::empty()) =~= Seq::<char>::empty());
        assert(blocks.take(0) =~= Seq::<BlockView>::empty());
    } else {
        lemma_blocks_cell_chars(blocks, n - 1);
        lemma_block_cell_chars((n - 1) as usize, blocks[n - 1]);
        lemma_cell_chars_concat(flatten_blocks(blocks, n - 1), flatten_block((n - 1) as usize, blocks[n - 1]));
        assert(blocks.take(n).drop_last() =~= blocks.take(n - 1));
        assert(blocks.take(n).last() == blocks[n - 1]);
    }
}

/// The document's text is its blocks' chars, block after block.
pub proof fn lemma_doc_text_blocks(doc: DocumentView)
    ensures
        doc_text(doc) == blocks_text(doc.blocks),
{
    lemma_blocks_cell_chars(doc.blocks, doc.blocks.len() as int);
    assert(doc.blocks.take(doc.blocks.len() as int) =~= doc.blocks);
    assert(doc_text(doc) =~= cell_chars(doc_chars(doc)));
}

pub proof fn lemma_inline_text_concat(a: Seq<InlineView>, b: Seq<InlineView>)
    ensures
        inline_text(a + b) == inline_text(a) + inline_text(b),
    decreases b.len(),
{
    if b.len() == 0 {
        assert(a + b =~= a);
        assert(inline_text(b) == Seq::<char>::empty());
        assert(inline_text(a) + inline_text(b) =~= inline_text(a));
    } else {
        lemma_inline_text_concat(a, b.drop_last());
        assert((a + b).drop_last() =~= a + b.drop_last());
        assert((a + b).last() == b.last());
        assert(inline_text(a + b) =~= inline_text(a) + inline_text(b));
    }
}

pub proof fn lemma_blocks_text_concat(a: Seq<BlockView>, b: Seq<BlockView>)
    ensures
        blocks_text(a + b) == blocks_text(a) + blocks_text(b),
    decreases b.len(),
{
    if b.len() == 0 {
        assert(a + b =~= a);
        assert(blocks_text(a) + blocks_text(b) =~= blocks_text(a));
    } else {
        lemma_blocks_text_concat(a, b.drop_last());
        assert((a + b).drop_last() =~= a + b.drop_last());
        assert((a + b).last() == b.last());
        assert(blocks_text(a + b) =~= blocks_text(a) + blocks_text(b));
    }
}

proof fn lemma_blocks_text_one(b: BlockView)
    ensures
        blocks_text(seq![b]) == block_chars(b),
{
    assert(seq![b].drop_last() =~= Seq::<BlockView>::empty());
    assert(blocks_text(Seq::<BlockView>::empty()) + block_chars(b) =~= block_chars(b));
}

/// Replacing block `i` by blocks with the same chars keeps the text.
proof fn lemma_replace_block_text(blocks: Seq<BlockView>, i: int, new: Seq<BlockView>)
    requires
        0 <= i < blocks.len(),
        blocks_text(new) == block_chars(blocks[i]),
    ensures
        blocks_text(blocks.take(i) + new + blocks.skip(i + 1)) == blocks_text(blocks),
{
    assert(blocks =~= blocks.take(i) + seq![blocks[i]] + blocks.skip(i + 1));
    lemma_blocks_text_concat(blocks.take(i) + seq![blocks[i]], blocks.skip(i + 1));
    lemma_blocks_text_concat(blocks.take(i), seq![blocks[i]]);
    lemma_blocks_text_concat(blocks.take(i) + new, blocks.skip(i + 1));
    lemma_blocks_text_concat(blocks.take(i), new);
    lemma_blocks_text_one(blocks[i]);
}

proof fn lemma_inline_text_one(x: InlineView)
    ensures
        inline_text(seq![x]) == node_text(x),
{
    assert(seq![x].drop_last() =~= Seq::<InlineView>::empty());
    assert(inline_text(Seq::<InlineView>::empty()) + node_text(x) =~= node_text(x));
}

/// Toggling bold or italic never changes the document's text: it only
/// splits a text node around a new empty bold or italic node.
pub proof fn lemma_toggle_keeps_text(doc: DocumentView, st: EditorStateView, bold: bool)
    ensures
        doc_text(toggle_spec(doc, st, bold).0) == doc_text(doc),
{
    let r = toggle_spec(doc, st, bold);
    lemma_doc_text_blocks(doc);
    lemma_doc_text_blocks(r.0);
    let c = normalized(st.cursor, doc);
    let bi = c.block_index as int;
    if r.2 {
        let b = doc.blocks[bi];
        let il = block_inlines(b)->0;
        let i = c.inline_path[0] as int;
        let s = match il[i] {
            InlineView::Text(s) => s,
            _ => Seq::empty(),
        };
        let k = char_index_at(s, c.offset as int);
        let before = s.take(k);
        let after = s.skip(k);
        let pre: Seq<InlineView> = if before.len() > 0 {
            seq![InlineView::Text(before)]
        } else {
            Seq::empty()
        };
        let post: Seq<InlineView> = if after.len() > 0 {
            seq![InlineView::Text(after)]
        } else {
            Seq::empty()
        };
        let rebuilt = pre + seq![toggle_mid(bold)] + post;
        let nil = il.take(i) + rebuilt + il.skip(i + 1);
        let nb = with_block_inlines(b, nil);
        assert(r.0.blocks == doc.blocks.update(bi, nb));
        // The new node holds no chars, the two halves hold the old text.
        let mid_inner = seq![InlineView::Text(Seq::<char>::empty())];
        lemma_inline_text_one(InlineView::Text(Seq::<char>::empty()));
        lemma_inline_text_one(toggle_mid(bold));
        assert(node_text(toggle_mid(bold)) == inline_text(mid_inner));
        assert(inline_text(seq![toggle_mid(bold)]) == Seq::<char>::empty());
        lemma_inline_text_one(InlineView::Text(before));
        lemma_inline_text_one(InlineView::Text(after));
        assert(inline_text(pre) == before);
        assert(inline_text(post) == after);
        lemma_inline_text_concat(pre, seq![toggle_mid(bold)]);
        lemma_inline_text_concat(pre + seq![toggle_mid(bold)], post);
        assert(before + after =~= s);
        assert(inline_text(rebuilt) == s);
        lemma_inline_text_one(il[i]);
        assert(il =~= il.take(i) + seq![il[i]] + il.skip(i + 1));
        lemma_inline_text_concat(il.take(i) + seq![il[i]], il.skip(i + 1));
        lemma_inline_text_concat(il.take(i), seq![il[i]]);
        lemma_inline_text_concat(il.take(i) + rebuilt, il.skip(i + 1));
        lemma_inline_text_concat(il.take(i), rebuilt);
        assert(inline_text(nil) == inline_text(il));
        assert(block_chars(nb) == block_chars(b));
        lemma_blocks_text_one(nb);
        lemma_replace_block_text(doc.blocks, bi, seq![nb]);
        assert(doc.blocks.update(bi, nb) =~= doc.blocks.take(bi) + seq![nb] + doc.blocks.skip(bi + 1));
    }
}

/// Inserting block `b` at index `i` (at the end when `i` is past it) puts
/// the block's chars between the chars of the blocks before and after it.
pub proof fn lemma_insert_block_text(doc: DocumentView, st: EditorStateView, i: usize, b: BlockView)
    ensures
        ({
            let j = if i > doc.blocks.len() {
                doc.blocks.len() as int
            } else {
                i as int
            };
            doc_text(reduce_edit_spec(doc, st, EditOpView::InsertBlock(i, b)).0) == blocks_text(
                doc.blocks.take(j),
            ) + block_chars(b) + blocks_text(doc.blocks.skip(j))
        }),
{
    let j = if i > doc.blocks.len() {
        doc.blocks.len() as int
    } else {
        i as int
    };
    let d2 = reduce_edit_spec(doc, st, EditOpView::InsertBlock(i, b)).0;
    assert(j as usize as int == j);
    assert(d2.blocks == doc.blocks.insert(j, b));
    lemma_doc_text_blocks(d2);
    assert(doc.blocks.insert(j, b) =~= doc.blocks.take(j) + seq![b] + doc.blocks.skip(j));
    lemma_blocks_text_concat(doc.blocks.take(j) + seq![b], doc.blocks.skip(j));
    lemma_blocks_text_concat(doc.blocks.take(j), seq![b]);
    lemma_blocks_text_one(b);
}

/// Deleting block `i` removes exactly that block's chars from the text.
pub proof fn lemma_delete_block_text(doc: DocumentView, st: EditorStateView, i: usize)
    requires
        i < doc.blocks.len(),
    ensures
        doc_text(reduce_edit_spec(doc, st, EditOpView::DeleteBlock(i)).0) == blocks_text(
            doc.blocks.take(i as int),
        ) + blocks_text(doc.blocks.skip(i + 1)),
{
    let d2 = reduce_edit_spec(doc, st, EditOpView::DeleteBlock(i)).0;
    let rest = doc.blocks.remove(i as int);
    lemma_doc_text_blocks(d2);
    assert(rest =~= doc.blocks.take(i as int) + doc.blocks.skip(i + 1));
    lemma_blocks_text_concat(doc.blocks.take(i as int), doc.blocks.skip(i + 1));
    if rest.len() == 0 {
        let e = crate::document::empty_paragraph();
        lemma_blocks_text_one(e);
        lemma_inline_text_one(InlineView::Text(Seq::<char>::empty()));
        assert(blocks_text(seq![e]) == Seq::<char>::empty());
        assert(blocks_text(rest) == Seq::<char>::empty()) by {
            assert(rest =~= Seq::<BlockView>::empty());
        }
    }
}

/// Enter in a paragraph or heading splits it in two without changing the
/// document's text; in a code block it puts a `\n` into the block's text.
pub proof fn lemma_newline_text(doc: DocumentView, st: EditorStateView)
    ensures
        ({
            let c = normalized(st.cursor, doc);
            let r = newline_spec(doc, st);
            r.2 ==> match doc.blocks[c.block_index as int] {
                BlockView::CodeBlock { text, .. } => exists|k: int|
                    0 <= k <= text.len() && doc_text(r.0) == blocks_text(doc.blocks.take(c.block_index as int))
                        + text.insert(k, '\n') + blocks_text(doc.blocks.skip(c.block_index + 1)),
                _ => doc_text(r.0) == doc_text(doc),
            }
        }),
{
    let c = normalized(st.cursor, doc);
    let r = newline_spec(doc, st);
    if r.2 {
        match doc.blocks[c.block_index as int] {
            BlockView::CodeBlock { .. } => lemma_newline_code_text(doc, st),
            _ => lemma_newline_split_text(doc, st),
        }
    }
}

proof fn lemma_newline_code_text(doc: DocumentView, st: EditorStateView)
    requires
        newline_spec(doc, st).2,
        doc.blocks[normalized(st.cursor, doc).block_index as int] is CodeBlock,
    ensures
        ({
            let c = normalized(st.cursor, doc);
            let text = doc.blocks[c.block_index as int]->CodeBlock_text;
            exists|k: int|
                0 <= k <= text.len() && doc_text(newline_spec(doc, st).0) == blocks_text(
                    doc.blocks.take(c.block_index as int),
                ) + text.insert(k, '\n') + blocks_text(doc.blocks.skip(c.block_index + 1))
        }),
{
    let c = normalized(st.cursor, doc);
    let r = newline_spec(doc, st);
    let bi = c.block_index as int;
    lemma_doc_text_blocks(r.0);
    let lang = doc.blocks[bi]->CodeBlock_lang;
    let text = doc.blocks[bi]->CodeBlock_text;
    let off = if c.offset > crate::text::utf8_len(text) {
        crate::text::utf8_len(text) as int
    } else {
        c.offset as int
    };
    let k = char_index_at(text, off);
    crate::text::lemma_boundary_index(text, off);
    let nb = BlockView::CodeBlock { lang, text: text.insert(k, '\n') };
    assert(r.0.blocks =~= doc.blocks.take(bi) + seq![nb] + doc.blocks.skip(bi + 1));
    lemma_blocks_text_concat(doc.blocks.take(bi) + seq![nb], doc.blocks.skip(bi + 1));
    lemma_blocks_text_concat(doc.blocks.take(bi), seq![nb]);
    lemma_blocks_text_one(nb);
}

proof fn lemma_split_text(il: Seq<InlineView>, path: Seq<usize>, off: usize)
    requires
        split_spec(il, path, off) is Some,
    ensures
        inline_text(split_spec(il, path, off).unwrap().0) + inline_text(split_spec(il, path, off).unwrap().1)
            == inline_text(il),
{
    let sp = split_spec(il, path, off)->0;
    let left = sp.0;
    let after = sp.1;
    let i = path[0] as int;
    let s = il[i]->Text_0;
    crate::text::lemma_boundary_index(s, off as int);
    let k = char_index_at(s, off as int);
    let tail = s.skip(k);
    let head: Seq<InlineView> = if tail.len() > 0 {
        seq![InlineView::Text(tail)]
    } else {
        Seq::empty()
    };
    let aft = head + il.skip(i + 1);
    lemma_inline_text_one(InlineView::Text(s.take(k)));
    lemma_inline_text_one(InlineView::Text(tail));
    lemma_inline_text_one(InlineView::Text(Seq::<char>::empty()));
    assert(inline_text(head) == tail);
    lemma_inline_text_concat(head, il.skip(i + 1));
    assert(left =~= il.take(i) + seq![InlineView::Text(s.take(k))]);
    lemma_inline_text_concat(il.take(i), seq![InlineView::Text(s.take(k))]);
    assert(inline_text(after) == inline_text(aft)) by {
        if aft.len() == 0 {
            assert(aft =~= Seq::<InlineView>::empty());
        }
    }
    lemma_inline_text_one(il[i]);
    assert(il =~= il.take(i) + seq![il[i]] + il.skip(i + 1));
    lemma_inline_text_concat(il.take(i) + seq![il[i]], il.skip(i + 1));
    lemma_inline_text_concat(il.take(i), seq![il[i]]);
    assert(s.take(k) + tail =~= s);
    assert(inline_text(left) + inline_text(after) =~= inline_text(il));
}

proof fn lemma_newline_split_text(doc: DocumentView, st: EditorStateView)
    requires
        newline_spec(doc, st).2,
        !(doc.blocks[normalized(st.cursor, doc).block_index as int] is CodeBlock),
    ensures
        doc_text(newline_spec(doc, st).0) == doc_text(doc),
{
    let c = normalized(st.cursor, doc);
    let r = newline_spec(doc, st);
    let bi = c.block_index as int;
    lemma_doc_text_blocks(doc);
    lemma_doc_text_blocks(r.0);
    let b = doc.blocks[bi];
    let il = block_inlines(b)->0;
    let sp = split_spec(il, c.inline_path, c.offset)->0;
    lemma_split_text(il, c.inline_path, c.offset);
    let nb = with_block_inlines(b, sp.0);
    let nb2 = BlockView::Paragraph(sp.1);
    assert(r.0.blocks =~= doc.blocks.take(bi) + seq![nb, nb2] + doc.blocks.skip(bi + 1));
    assert(seq![nb, nb2] =~= seq![nb] + seq![nb2]);
    lemma_blocks_text_concat(seq![nb], seq![nb2]);
    lemma_blocks_text_one(nb);
    lemma_blocks_text_one(nb2);
    lemma_replace_block_text(doc.blocks, bi, seq![nb, nb2]);
}

/// The text of `il` before and after the leaf at `path`.
pub open spec fn leaf_context(il: Seq<InlineView>, path: Seq<usize>) -> (Seq<char>, Seq<char>)
    decreases path.len(),
{
    if path.len() == 0 || path[0] >= il.len() {
        (Seq::empty(), Seq::empty())
    } else {
        let i = path[0] as int;
        let before = inline_text(il.take(i));
        let after = inline_text(il.skip(i + 1));
        if path.len() == 1 {
            (before, after)
        } else {
            match children(il[i]) {
                Some(ch) => {
                    let inner = leaf_context(ch, path.drop_first());
                    (before + inner.0, inner.1 + after)
                },
                None => (before, after),
            }
        }
    }
}

proof fn lemma_split_at(il: Seq<InlineView>, i: int, x: InlineView)
    requires
        0 <= i < il.len(),
    ensures
        inline_text(il.update(i, x)) == inline_text(il.take(i)) + node_text(x) + inline_text(il.skip(i + 1)),
{
    assert(il.update(i, x) =~= il.take(i) + seq![x] + il.skip(i + 1));
    lemma_inline_text_concat(il.take(i) + seq![x], il.skip(i + 1));
    lemma_inline_text_concat(il.take(i), seq![x]);
    lemma_inline_text_one(x);
}

/// Replacing the leaf at `path` keeps the text around it.
pub proof fn lemma_leaf_context(il: Seq<InlineView>, path: Seq<usize>, t: Seq<char>, t2: Seq<char>)
    requires
        text_at(il, path) == Some(t),
    ensures
        inline_text(il) == leaf_context(il, path).0 + t + leaf_context(il, path).1,
        inline_text(with_text_at(il, path, t2)) == leaf_context(il, path).0 + t2 + leaf_context(il, path).1,
    decreases path.len(),
{
    let i = path[0] as int;
    assert(il.update(i, il[i]) =~= il);
    lemma_split_at(il, i, il[i]);
    if path.len() == 1 {
        lemma_split_at(il, i, InlineView::Text(t2));
    } else {
        let ch = children(il[i])->0;
        lemma_leaf_context(ch, path.drop_first(), t, t2);
        let x2 = with_children(il[i], with_text_at(ch, path.drop_first(), t2));
        lemma_split_at(il, i, x2);
        assert(node_text(il[i]) == inline_text(ch));
        assert(node_text(x2) == inline_text(with_text_at(ch, path.drop_first(), t2)));
        let c = leaf_context(ch, path.drop_first());
        assert(inline_text(il) =~= (inline_text(il.take(i)) + c.0) + t + (c.1 + inline_text(il.skip(i + 1))));
        assert(inline_text(with_text_at(il, path, t2)) =~= (inline_text(il.take(i)) + c.0) + t2 + (c.1 + inline_text(il.skip(i + 1))));
    }
}

/// The chars of the block at the cursor around its leaf.
proof fn lemma_block_leaf(doc: DocumentView, c: CursorView, t: Seq<char>, t2: Seq<char>) -> (xy: (
    Seq<char>,
    Seq<char>,
))
    requires
        leaf_text(doc, c) == Some(t),
    ensures
        block_chars(doc.blocks[c.block_index as int]) == xy.0 + t + xy.1,
        block_chars(with_leaf_text(doc, c, t2).blocks[c.block_index as int]) == xy.0 + t2 + xy.1,
{
    let bi = c.block_index as int;
    match doc.blocks[bi] {
        BlockView::CodeBlock { .. } => {
            assert(t =~= Seq::<char>::empty() + t + Seq::<char>::empty());
            assert(t2 =~= Seq::<char>::empty() + t2 + Seq::<char>::empty());
            (Seq::empty(), Seq::empty())
        },
        BlockView::Paragraph(il) => {
            lemma_leaf_context(il, c.inline_path, t, t2);
            leaf_context(il, c.inline_path)
        },
        BlockView::Heading { content, .. } => {
            lemma_leaf_context(content, c.inline_path, t, t2);
            leaf_context(content, c.inline_path)
        },
    }
}

/// Replacing block `i` by one whose chars differ only in a middle part.
proof fn lemma_replace_block_middle(
    blocks: Seq<BlockView>,
    i: int,
    nb: BlockView,
    x: Seq<char>,
    y: Seq<char>,
    t: Seq<char>,
    t2: Seq<char>,
) -> (pq: (Seq<char>, Seq<char>))
    requires
        0 <= i < blocks.len(),
        block_chars(blocks[i]) == x + t + y,
        block_chars(nb) == x + t2 + y,
    ensures
        blocks_text(blocks) == pq.0 + t + pq.1,
        blocks_text(blocks.update(i, nb)) == pq.0 + t2 + pq.1,
        pq.0 == blocks_text(blocks.take(i)) + x,
{
    let b = blocks[i];
    assert(blocks.update(i, nb) =~= blocks.take(i) + seq![nb] + blocks.skip(i + 1));
    assert(blocks =~= blocks.take(i) + seq![b] + blocks.skip(i + 1));
    lemma_blocks_text_concat(blocks.take(i) + seq![nb], blocks.skip(i + 1));
    lemma_blocks_text_concat(blocks.take(i), seq![nb]);
    lemma_blocks_text_concat(blocks.take(i) + seq![b], blocks.skip(i + 1));
    lemma_blocks_text_concat(blocks.take(i), seq![b]);
    lemma_blocks_text_one(nb);
    lemma_blocks_text_one(b);
    let pre = blocks_text(blocks.take(i));
    let post = blocks_text(blocks.skip(i + 1));
    assert(blocks_text(blocks) =~= (pre + x) + t + (y + post));
    assert(blocks_text(blocks.update(i, nb)) =~= (pre + x) + t2 + (y + post));
    (pre + x, y + post)
}

/// Replacing the text at the cursor's leaf (or code block) changes the
/// document's text in that place only.
pub proof fn lemma_with_leaf_text(doc: DocumentView, c: CursorView, t: Seq<char>, t2: Seq<char>)
    requires
        leaf_text(doc, c) == Some(t),
    ensures
        exists|p: Seq<char>, q: Seq<char>|
            doc_text(doc) == p + t + q && doc_text(with_leaf_text(doc, c, t2)) == p + t2 + q,
{
    let bi = c.block_index as int;
    lemma_doc_text_blocks(doc);
    lemma_doc_text_blocks(with_leaf_text(doc, c, t2));
    let xy = lemma_block_leaf(doc, c, t, t2);
    let nb = with_leaf_text(doc, c, t2).blocks[bi];
    assert(with_leaf_text(doc, c, t2).blocks == doc.blocks.update(bi, nb));
    let pq = lemma_replace_block_middle(doc.blocks, bi, nb, xy.0, xy.1, t, t2);
    assert(doc_text(doc) == pq.0 + t + pq.1 && doc_text(with_leaf_text(doc, c, t2)) == pq.0 + t2 + pq.1);
}

/// Typing a char puts exactly that char into the document's text.
pub proof fn lemma_insert_char_text(doc: DocumentView, st: EditorStateView, ch: char)
    ensures
        insert_char_spec(doc, st, ch).2 ==> exists|g: int|
            0 <= g <= doc_text(doc).len() && doc_text(insert_char_spec(doc, st, ch).0)
                == doc_text(doc).insert(g, ch),
{
    let c = normalized(st.cursor, doc);
    if let Some(t) = leaf_text(doc, c) {
        lemma_normalized_leaf(st.cursor, doc);
        crate::text::lemma_boundary_index(t, c.offset as int);
        let k = char_index_at(t, c.offset as int);
        let t2 = t.insert(k, ch);
        lemma_with_leaf_text(doc, c, t, t2);
        let (p, q) = choose|p: Seq<char>, q: Seq<char>|
            doc_text(doc) == p + t + q && doc_text(with_leaf_text(doc, c, t2)) == p + t2 + q;
        let g = p.len() + k;
        assert(doc_text(with_leaf_text(doc, c, t2)) =~= doc_text(doc).insert(g, ch));
    }
}

/// Backspace with no selection removes at most one char of the document's
/// text: the one before the caret in its leaf, or none when it joins blocks.
pub proof fn lemma_backspace_text(doc: DocumentView, st: EditorStateView)
    ensures
        ({
            let r = backspace_spec(doc, st);
            doc_text(r.0) == doc_text(doc) || exists|g: int|
                0 <= g < doc_text(doc).len() && doc_text(r.0) == doc_text(doc).remove(g)
        }),
{
    let c = normalized(st.cursor, doc);
    let r = backspace_spec(doc, st);
    match leaf_text(doc, c) {
        Some(t) => {
            if c.offset > 0 {
                lemma_normalized_leaf(st.cursor, doc);
                let k = crate::text::floor_char_index(t, c.offset - 1);
                crate::text::lemma_floor_char_index(t, c.offset - 1);
                crate::text::lemma_boundary_index(t, c.offset as int);
                let ci = char_index_at(t, c.offset as int);
                if k >= t.len() {
                    crate::text::lemma_byte_offset_end(t);
                    crate::text::lemma_byte_offset_le_len(t, ci);
                }
                let t2 = t.remove(k);
                lemma_with_leaf_text(doc, c, t, t2);
                let (p, q) = choose|p: Seq<char>, q: Seq<char>|
                    doc_text(doc) == p + t + q && doc_text(with_leaf_text(doc, c, t2)) == p + t2 + q;
                let g = p.len() + k;
                assert(doc_text(with_leaf_text(doc, c, t2)) =~= doc_text(doc).remove(g));
            } else {
                lemma_merge_text(doc, with_cursor(st, c));
            }
        },
        None => {
            lemma_merge_text(doc, with_cursor(st, c));
        },
    }
}

/// Joining a block into the one before it keeps the document's text.
pub proof fn lemma_merge_text(doc: DocumentView, st: EditorStateView)
    ensures
        doc_text(merge_spec(doc, st).0) == doc_text(doc),
{
    let bi = st.cursor.block_index as int;
    if !(bi == 0 || bi >= doc.blocks.len()) {
        match (doc.blocks[bi - 1], doc.blocks[bi]) {
            (BlockView::Paragraph(a), BlockView::Paragraph(b)) => {
                let r = merge_spec(doc, st);
                lemma_doc_text_blocks(doc);
                lemma_doc_text_blocks(r.0);
                let nb = BlockView::Paragraph(a + b);
                assert(r.0.blocks =~= doc.blocks.take(bi - 1) + seq![nb] + doc.blocks.skip(bi + 1));
                assert(doc.blocks =~= doc.blocks.take(bi - 1) + seq![doc.blocks[bi - 1], doc.blocks[bi]] + doc.blocks.skip(bi + 1));
                assert(seq![doc.blocks[bi - 1], doc.blocks[bi]] =~= seq![doc.blocks[bi - 1]] + seq![doc.blocks[bi]]);
                lemma_blocks_text_concat(seq![doc.blocks[bi - 1]], seq![doc.blocks[bi]]);
                lemma_blocks_text_one(doc.blocks[bi - 1]);
                lemma_blocks_text_one(doc.blocks[bi]);
                lemma_blocks_text_one(nb);
                lemma_inline_text_concat(a, b);
                lemma_blocks_text_concat(doc.blocks.take(bi - 1) + seq![nb], doc.blocks.skip(bi + 1));
                lemma_blocks_text_concat(doc.blocks.take(bi - 1), seq![nb]);
                lemma_blocks_text_concat(doc.blocks.take(bi - 1) + seq![doc.blocks[bi - 1], doc.blocks[bi]], doc.blocks.skip(bi + 1));
                lemma_blocks_text_concat(doc.blocks.take(bi - 1), seq![doc.blocks[bi - 1], doc.blocks[bi]]);
            },
            _ => {},
        }
    }
}

/// Typing a char with no selection, when the edit takes place, inserts
/// exactly that char into the document's text.
pub proof fn lemma_reduce_insert_char_text(doc: DocumentView, st: EditorStateView, ch: char)
    requires
        take_range(with_cursor(st, normalized(st.cursor, doc))).0 is None,
    ensures
        reduce_edit_spec(doc, st, EditOpView::InsertChar(ch)).2 ==> exists|g: int|
            0 <= g <= doc_text(doc).len() && doc_text(reduce_edit_spec(doc, st, EditOpView::InsertChar(ch)).0)
                == doc_text(doc).insert(g, ch),
{
    let st1 = with_cursor(st, normalized(st.cursor, doc));
    lemma_insert_char_text(doc, st1, ch);
    let e = insert_char_spec(doc, st1, ch);
    assert(doc_text(DocumentView { generation: crate::document::next_generation(e.0.generation), ..e.0 }) == doc_text(e.0));
}

/// Toggling bold or italic through `reduce_edit` never changes the text.
pub proof fn lemma_reduce_toggle_text(doc: DocumentView, st: EditorStateView, bold: bool)
    ensures
        doc_text(reduce_edit_spec(doc, st, if bold {
            EditOpView::ToggleBold
        } else {
            EditOpView::ToggleItalic
        }).0) == doc_text(doc),
{
    lemma_toggle_keeps_text(doc, st, bold);
    let e = toggle_spec(doc, st, bold);
    assert(doc_text(DocumentView { generation: crate::document::next_generation(e.0.generation), ..e.0 }) == doc_text(e.0));
}

/// A caret's gap index lies within the document's chars, the caret for that
/// gap exists, and that caret has a gap index too.
pub proof fn lemma_gap_roundtrip(doc: DocumentView, c: CursorView)
    requires
        gap_index_of(doc, c) is Some,
    ensures
        0 <= gap_index_of(doc, c)->0 <= doc_chars(doc).len(),
        cursor_at_gap(doc, gap_index_of(doc, c)->0) is Some,
        gap_index_of(doc, cursor_at_gap(doc, gap_index_of(doc, c)->0)->0) is Some,
{
    let flat = doc_chars(doc);
    let n = flat.len() as int;
    lemma_first_index_props(n, cell_starts_at(flat, c));
    lemma_first_index_props(n, cell_ends_at(flat, c));
    let g = gap_index_of(doc, c)->0;
    let c2 = cursor_at_gap(doc, g)->0;
    if 0 <= g < n {
        assert(cell_starts_at(flat, c2)(g));
        lemma_first_index_props(g + 1, cell_starts_at(flat, c2));
        lemma_first_index_extends(g + 1, n, cell_starts_at(flat, c2));
    } else if g == n && n > 0 {
        lemma_first_index_props(n, cell_starts_at(flat, c2));
        assert(cell_ends_at(flat, c2)(n - 1));
        lemma_first_index_props(n, cell_ends_at(flat, c2));
    }
}

/// Setting the leaf at `path` to `t` makes `t` the text there.
proof fn lemma_text_at_after_set(il: Seq<InlineView>, path: Seq<usize>, t: Seq<char>)
    requires
        text_at(il, path) is Some,
    ensures
        text_at(with_text_at(il, path, t), path) == Some(t),
    decreases path.len(),
{
    let i = path[0] as int;
    if path.len() > 1 {
        let ch = children(il[i])->0;
        lemma_node_at_step(il, path);
        lemma_text_at_after_set(ch, path.drop_first(), t);
        let il2 = with_text_at(il, path, t);
        assert(children(il2[i]) == Some(with_text_at(ch, path.drop_first(), t)));
        lemma_node_at_step(il2, path);
    }
}

/// Setting the leaf at `path` to some text and then back to the text it
/// had gives the inlines back.
proof fn lemma_set_text_back(il: Seq<InlineView>, path: Seq<usize>, a: Seq<char>, s: Seq<char>)
    requires
        text_at(il, path) == Some(s),
    ensures
        with_text_at(with_text_at(il, path, a), path, s) == il,
    decreases path.len(),
{
    let i = path[0] as int;
    if path.len() == 1 {
        assert(il[i] == InlineView::Text(s));
        assert(with_text_at(with_text_at(il, path, a), path, s) =~= il);
    } else {
        let ch = children(il[i])->0;
        lemma_node_at_step(il, path);
        lemma_set_text_back(ch, path.drop_first(), a, s);
        let il1 = with_text_at(il, path, a);
        let w1 = with_text_at(ch, path.drop_first(), a);
        assert(children(il1[i]) == Some(w1));
        assert(with_children(with_children(il[i], w1), ch) == il[i]);
        assert(with_text_at(il1, path, s) =~= il);
    }
}

/// Normalizing a caret on a text leaf keeps its path and snaps its offset.
proof fn lemma_normalize_below_on_leaf(il: Seq<InlineView>, path: Seq<usize>, s: Seq<char>, off: usize)
    requires
        text_at(il, path) == Some(s),
    ensures
        normalize_below(il, path, off) == (path, snap_text_offset(s, off)),
    decreases path.len(),
{
    let i = path[0] as int;
    match il[i] {
        InlineView::Text(_) => {
            assert(seq![path[0]] =~= path);
        },
        _ => {
            let ch = children(il[i])->0;
            let rest = path.drop_first();
            lemma_node_at_step(il, path);
            lemma_normalize_below_on_leaf(ch, rest, s, off);
            assert(seq![path[0]] + rest =~= path);
        },
    }
}

/// Byte offset `byte_offset_of(s, j)` snaps to itself.
pub proof fn lemma_floor_at_offset(s: Seq<char>, j: int)
    requires
        0 <= j <= s.len(),
    ensures
        floor_char_index(s, byte_offset_of(s, j) as int) == j,
{
    let off = byte_offset_of(s, j) as int;
    lemma_floor_char_index(s, off);
    let f = floor_char_index(s, off);
    if f < j {
        assert(byte_offset_of(s, j) > off);
    } else if f > j {
        crate::text::lemma_byte_offset_strict_mono(s, j, f);
    }
}

/// Backspace right after typing a char takes the document back: the blocks
/// are as before the char was typed, and the caret is where typing put it
/// before the char (for text whose byte length leaves room in `usize`).
pub proof fn lemma_backspace_undoes_insert(doc: DocumentView, st: EditorStateView, ch: char)
    requires
        insert_char_spec(doc, st, ch).2,
        leaf_text(doc, normalized(st.cursor, doc)) matches Some(t) && utf8_len(t) + 4
            <= usize::MAX,
    ensures
        ({
            let ins = insert_char_spec(doc, st, ch);
            let back = backspace_spec(ins.0, ins.1);
            &&& back.2
            &&& back.0 == doc
            &&& back.1 == with_cursor(st, normalized(st.cursor, doc))
            &&& normalized(ins.1.cursor, ins.0) == ins.1.cursor
        }),
{
    let c = normalized(st.cursor, doc);
    let t = leaf_text(doc, c)->0;
    lemma_normalized_leaf(st.cursor, doc);
    lemma_boundary_index(t, c.offset as int);
    let k = char_index_at(t, c.offset as int);
    let t2 = t.insert(k, ch);
    lemma_insert_offsets(t, k, ch);
    crate::text::lemma_byte_offset_le_len(t, k);
    assert(char_utf8_len(ch) <= 4);
    let off2 = (c.offset + char_utf8_len(ch)) as usize;
    assert(off2 == byte_offset_of(t2, k + 1));
    let ins = insert_char_spec(doc, st, ch);
    let d1 = ins.0;
    let c1 = with_offset(c, off2);
    assert(ins.1 == with_cursor(st, c1));
    assert(d1 == with_leaf_text(doc, c, t2));
    let bi = c.block_index as int;
    assert(doc.blocks.len() > 0);
    // the text under the caret after typing
    match doc.blocks[bi] {
        BlockView::CodeBlock { .. } => {},
        BlockView::Paragraph(il) => {
            lemma_text_at_after_set(il, c.inline_path, t2);
        },
        BlockView::Heading { content, .. } => {
            lemma_text_at_after_set(content, c.inline_path, t2);
        },
    }
    assert(leaf_text(d1, c1) == Some(t2));
    // the caret after typing is already normal
    lemma_floor_at_offset(t2, k + 1);
    crate::text::lemma_byte_offset_le_len(t2, k + 1);
    assert(snap_text_offset(t2, off2) == off2);
    assert(snap_code_offset(t2, off2) == off2);
    match doc.blocks[bi] {
        BlockView::CodeBlock { .. } => {
            assert(normalized(c1, d1) == c1);
        },
        BlockView::Paragraph(il) => {
            let il2 = with_text_at(il, c.inline_path, t2);
            assert(d1.blocks[bi] == BlockView::Paragraph(il2));
            lemma_normalize_below_on_leaf(il2, c.inline_path, t2, off2);
            assert(c.inline_path.len() > 0 && c.inline_path[0] < il2.len()) by {
                if c.inline_path.len() == 0 || c.inline_path[0] >= il2.len() {
                    assert(node_at(il2, c.inline_path) is None);
                }
            }
            assert(top_level_path(c.inline_path, il2.len()) == c.inline_path);
            assert(normalize_in_tree(il2, c.inline_path, off2) == (c.inline_path, off2));
            assert(normalized(c1, d1) == c1);
        },
        BlockView::Heading { level, content } => {
            let il2 = with_text_at(content, c.inline_path, t2);
            assert(d1.blocks[bi] == BlockView::Heading { level, content: il2 });
            lemma_normalize_below_on_leaf(il2, c.inline_path, t2, off2);
            assert(c.inline_path.len() > 0 && c.inline_path[0] < il2.len()) by {
                if c.inline_path.len() == 0 || c.inline_path[0] >= il2.len() {
                    assert(node_at(il2, c.inline_path) is None);
                }
            }
            assert(top_level_path(c.inline_path, il2.len()) == c.inline_path);
            assert(normalize_in_tree(il2, c.inline_path, off2) == (c.inline_path, off2));
            assert(normalized(c1, d1) == c1);
        },
    }
    // backspace removes the typed char
    let b = (off2 - 1) as int;
    lemma_floor_char_index(t2, b);
    let f = floor_char_index(t2, b);
    if f < k {
        assert(byte_offset_of(t2, k) > b);
    } else if f > k {
        lemma_byte_offset_mono(t2, k + 1, f);
    }
    assert(f == k);
    assert(t2.remove(k) =~= t);
    match doc.blocks[bi] {
        BlockView::CodeBlock { lang, text } => {
            assert(with_leaf_text(d1, c1, t).blocks =~= doc.blocks);
        },
        BlockView::Paragraph(il) => {
            lemma_set_text_back(il, c.inline_path, t2, t);
            assert(with_leaf_text(d1, c1, t).blocks =~= doc.blocks);
        },
        BlockView::Heading { level, content } => {
            lemma_set_text_back(content, c.inline_path, t2, t);
            assert(with_leaf_text(d1, c1, t).blocks =~= doc.blocks);
        },
    }
    assert(with_offset(c1, byte_offset_of(t2, k) as usize) == c);
}

/// Normalizing a caret that addresses text a second time changes nothing.
pub proof fn lemma_normalized_on_text_stays(c: CursorView, doc: DocumentView)
    requires
        leaf_text(doc, normalized(c, doc)) is Some,
    ensures
        normalized(normalized(c, doc), doc) == normalized(c, doc),
{
    let n = normalized(c, doc);
    let s = leaf_text(doc, n)->0;
    lemma_normalized_leaf(c, doc);
    lemma_boundary_index(s, n.offset as int);
    let j = char_index_at(s, n.offset as int);
    lemma_floor_at_offset(s, j);
    let bi = n.block_index as int;
    match doc.blocks[bi] {
        BlockView::CodeBlock { .. } => {
            assert(snap_code_offset(s, n.offset) == n.offset);
        },
        BlockView::Paragraph(il) => {
            assert(n.inline_path.len() > 0 && n.inline_path[0] < il.len()) by {
                if n.inline_path.len() == 0 || n.inline_path[0] >= il.len() {
                    assert(node_at(il, n.inline_path) is None);
                }
            }
            lemma_normalize_below_on_leaf(il, n.inline_path, s, n.offset);
            assert(snap_text_offset(s, n.offset) == n.offset);
        },
        BlockView::Heading { content, .. } => {
            assert(n.inline_path.len() > 0 && n.inline_path[0] < content.len()) by {
                if n.inline_path.len() == 0 || n.inline_path[0] >= content.len() {
                    assert(node_at(content, n.inline_path) is None);
                }
            }
            lemma_normalize_below_on_leaf(content, n.inline_path, s, n.offset);
            assert(snap_text_offset(s, n.offset) == n.offset);
        },
    }
}

/// With no selection, Backspace right after typing a char gives back the
/// document's blocks and the caret (normalized); each edit moves the
/// generation on.
pub proof fn lemma_reduce_backspace_undoes_insert(doc: DocumentView, st: EditorStateView, ch: char)
    requires
        st.selection is None,
        reduce_edit_spec(doc, st, EditOpView::InsertChar(ch)).2,
        leaf_text(doc, normalized(st.cursor, doc)) matches Some(t) && utf8_len(t) + 4
            <= usize::MAX,
    ensures
        ({
            let r1 = reduce_edit_spec(doc, st, EditOpView::InsertChar(ch));
            let r2 = reduce_edit_spec(r1.0, r1.1, EditOpView::Backspace);
            &&& r2.2
            &&& r2.0.blocks == doc.blocks
            &&& r2.1 == with_cursor(st, normalized(st.cursor, doc))
        }),
{
    let c = normalized(st.cursor, doc);
    let st1 = with_cursor(st, c);
    assert(insert_char_spec(doc, st1, ch).2);
    lemma_normalized_on_text_stays(st.cursor, doc);
    assert(normalized(st1.cursor, doc) == c);
    lemma_backspace_undoes_insert(doc, st1, ch);
    let ins = insert_char_spec(doc, st1, ch);
    let r1 = reduce_edit_spec(doc, st, EditOpView::InsertChar(ch));
    assert(r1.0.blocks == ins.0.blocks);
    assert(r1.1 == ins.1);
    assert(normalized(r1.1.cursor, r1.0) == normalized(ins.1.cursor, ins.0));
    let st2 = with_cursor(r1.1, normalized(r1.1.cursor, r1.0));
    assert(st2 == ins.1);
    let b1 = backspace_spec(r1.0, st2);
    let b0 = backspace_spec(ins.0, ins.1);
    assert(b1.0.blocks == b0.0.blocks);
    assert(b1.1 == b0.1);
}


/// Every inline sequence in `s`, nested ones too, has a `usize` length.
pub open spec fn inlines_fit(s: Seq<InlineView>) -> bool
    decreases s, 1int,
{
    &&& s.len() <= usize::MAX
    &&& forall|i: int| 0 <= i < s.len() ==> node_fits(#[trigger] s[i])
}

/// Every inline sequence in `x` has a `usize` length.
pub open spec fn node_fits(x: InlineView) -> bool
    decreases x, 0int,
{
    match x {
        InlineView::Text(_) => true,
        InlineView::Bold(v) => inlines_fit(v),
        InlineView::Italic(v) => inlines_fit(v),
        InlineView::Link { text, .. } => inlines_fit(text),
    }
}

/// Every sequence in the document has a `usize` length, as in a document in
/// memory.
pub open spec fn doc_fits(doc: DocumentView) -> bool {
    &&& doc.blocks.len() <= usize::MAX
    &&& forall|i: int| 0 <= i < doc.blocks.len() ==> block_fits(#[trigger] doc.blocks[i])
}

/// The inline sequence of a block fits.
pub open spec fn block_fits(b: BlockView) -> bool {
    match b {
        BlockView::Paragraph(il) => inlines_fit(il),
        BlockView::Heading { content, .. } => inlines_fit(content),
        BlockView::CodeBlock { .. } => true,
    }
}

/// A document in memory fits.
pub proof fn lemma_doc_fits(doc: Document)
    ensures
        doc_fits(doc@),
{
    assert(doc.blocks.len() == doc.blocks@.len());
    assert forall|i: int| 0 <= i < doc@.blocks.len() implies block_fits(#[trigger] doc@.blocks[i]) by {
        assert(doc@.blocks[i] == block_view(doc.blocks@[i]));
        match doc.blocks@[i] {
            Block::Paragraph(v) => lemma_vec_fits(v),
            Block::Heading { content, .. } => lemma_vec_fits(content),
            Block::CodeBlock { .. } => {},
        }
    }
}

proof fn lemma_vec_fits(v: Vec<Inline>)
    ensures
        inlines_fit(inlines_view(v@)),
    decreases v, 1int,
{
    assert(v.len() == v@.len());
    assert forall|i: int| 0 <= i < v@.len() implies node_fits(#[trigger] inlines_view(v@)[i]) by {
        assert(decreases_to!(v => v@));
        assert(decreases_to!(v@ => v@[i]));
        lemma_node_fits(v@[i]);
    }
}

proof fn lemma_node_fits(x: Inline)
    ensures
        node_fits(inline_view(x)),
    decreases x, 0int,
{
    match x {
        Inline::Text(_) => {},
        Inline::Bold(v) => lemma_vec_fits(v),
        Inline::Italic(v) => lemma_vec_fits(v),
        Inline::Link { text, .. } => lemma_vec_fits(text),
    }
}

/// Cell `cell` stands at char `j` of text `t`.
pub open spec fn cell_at_char(t: Seq<char>, cell: (CursorView, char), j: int) -> bool {
    &&& 0 <= j < t.len()
    &&& byte_offset_of(t, j) as usize == cell.0.offset
    &&& t[j] == cell.1
}

/// Cell `cell` of block `bi`, whose path starts with `prefix`, lies in a text
/// leaf of `s` with `k` chars of `s` before it.
pub open spec fn cell_in_seq(
    bi: usize,
    prefix: Seq<usize>,
    s: Seq<InlineView>,
    cell: (CursorView, char),
    k: int,
) -> bool {
    let path = cell.0.inline_path;
    let rest = path.skip(prefix.len() as int);
    &&& cell.0.block_index == bi
    &&& path.len() > prefix.len()
    &&& path.take(prefix.len() as int) == prefix
    &&& text_at(s, rest) matches Some(t) && cell_at_char(t, cell, k - leaf_context(s, rest).0.len())
}

/// Cell `cell` of block `bi` lies in node `x` at `path0` with `k` chars of
/// `x` before it.
pub open spec fn cell_in_node(
    bi: usize,
    path0: Seq<usize>,
    x: InlineView,
    cell: (CursorView, char),
    k: int,
) -> bool {
    let path = cell.0.inline_path;
    let rest = path.skip(path0.len() as int);
    &&& cell.0.block_index == bi
    &&& path.len() >= path0.len()
    &&& path.take(path0.len() as int) == path0
    &&& if rest.len() == 0 {
        x matches InlineView::Text(t) && cell_at_char(t, cell, k)
    } else {
        children(x) matches Some(ch) && text_at(ch, rest) matches Some(t) && cell_at_char(
            t,
            cell,
            k - leaf_context(ch, rest).0.len(),
        )
    }
}

proof fn lemma_node_cell(bi: usize, path0: Seq<usize>, x: InlineView, k: int)
    requires
        node_fits(x),
        0 <= k < flatten_node(bi, path0, x).len(),
    ensures
        cell_in_node(bi, path0, x, flatten_node(bi, path0, x)[k], k),
    decreases x, 0int,
{
    let cell = flatten_node(bi, path0, x)[k];
    match x {
        InlineView::Text(t) => {
            assert(flatten_node(bi, path0, x) == text_cells(bi, path0, t));
            assert(cell == text_cells(bi, path0, t)[k]);
            assert(cell.0.inline_path == path0);
            assert(cell.0.offset == byte_offset_of(t, k) as usize);
            assert(path0.skip(path0.len() as int) =~= Seq::<usize>::empty());
            assert(path0.take(path0.len() as int) =~= path0);
        },
        InlineView::Bold(v) => {
            lemma_seq_cell(bi, path0, v, v.len() as int, k);
        },
        InlineView::Italic(v) => {
            lemma_seq_cell(bi, path0, v, v.len() as int, k);
        },
        InlineView::Link { text, .. } => {
            lemma_seq_cell(bi, path0, text, text.len() as int, k);
        },
    }
}

proof fn lemma_seq_cell(bi: usize, prefix: Seq<usize>, s: Seq<InlineView>, n: int, k: int)
    requires
        inlines_fit(s),
        0 <= n <= s.len(),
        0 <= k < flatten_seq(bi, prefix, s, n).len(),
    ensures
        cell_in_seq(bi, prefix, s, flatten_seq(bi, prefix, s, n)[k], k),
    decreases s, 1int, n,
{
    let a = flatten_seq(bi, prefix, s, n - 1);
    let i = n - 1;
    let path0 = prefix.push(i as usize);
    let b = flatten_node(bi, path0, s[i]);
    assert(flatten_seq(bi, prefix, s, n) == a + b);
    if k < a.len() {
        lemma_seq_cell(bi, prefix, s, n - 1, k);
    } else {
        let k2 = k - a.len();
        assert(s[i] == s[i]);
        lemma_node_cell(bi, path0, s[i], k2);
        let cell = b[k2];
        assert(flatten_seq(bi, prefix, s, n)[k] == cell);
        lemma_seq_chars(bi, prefix, s, n - 1);
        assert(cell_chars(a).len() == a.len());
        let before = inline_text(s.take(i));
        assert(before.len() == a.len());
        let path = cell.0.inline_path;
        let pl = prefix.len() as int;
        let rest = path.skip(pl);
        let rest2 = path.skip(pl + 1);
        assert(path.take(pl + 1) == path0);
        assert(path.take(pl) =~= path0.take(pl));
        assert(path0.take(pl) =~= prefix);
        assert(rest[0] == path[pl]);
        assert(path[pl] == path0[pl]);
        assert(rest.drop_first() =~= rest2);
        assert(rest.len() == rest2.len() + 1);
        assert(rest[0] == i as usize);
        if rest2.len() == 0 {
            assert(rest =~= seq![i as usize]);
        } else {
            let ch = children(s[i])->0;
            assert(children(s[rest[0] as int]) == Some(ch));
            assert(node_at(s, rest) == node_at(ch, rest.drop_first()));
            let inner = leaf_context(ch, rest2);
            assert(leaf_context(s, rest) == (
                inline_text(s.take(i)) + inner.0,
                inner.1 + inline_text(s.skip(i + 1)),
            ));
        }
    }
}

/// Cell `cell` of block `bi` lies in block `b` with `k` chars of `b` before it.
pub open spec fn cell_in_block(bi: usize, b: BlockView, cell: (CursorView, char), k: int) -> bool {
    match b {
        BlockView::CodeBlock { text, .. } => {
            &&& cell.0.block_index == bi
            &&& cell.0.inline_path == Seq::<usize>::empty()
            &&& cell_at_char(text, cell, k)
        },
        BlockView::Paragraph(il) => cell_in_seq(bi, Seq::empty(), il, cell, k),
        BlockView::Heading { content, .. } => cell_in_seq(bi, Seq::empty(), content, cell, k),
    }
}

proof fn lemma_blocks_cell(blocks: Seq<BlockView>, n: int, k: int)
    requires
        blocks.len() <= usize::MAX,
        forall|i: int| 0 <= i < blocks.len() ==> block_fits(#[trigger] blocks[i]),
        0 <= n <= blocks.len(),
        0 <= k < flatten_blocks(blocks, n).len(),
    ensures
        ({
            let cell = flatten_blocks(blocks, n)[k];
            let bi = cell.0.block_index as int;
            &&& bi < n
            &&& cell_in_block(bi as usize, blocks[bi], cell, k - blocks_text(blocks.take(bi)).len())
        }),
    decreases n,
{
    let a = flatten_blocks(blocks, n - 1);
    let i = n - 1;
    let b = flatten_block(i as usize, blocks[i]);
    assert(flatten_blocks(blocks, n) == a + b);
    if k < a.len() {
        lemma_blocks_cell(blocks, n - 1, k);
    } else {
        let k2 = k - a.len();
        let cell = b[k2];
        assert(flatten_blocks(blocks, n)[k] == cell);
        lemma_blocks_cell_chars(blocks, n - 1);
        assert(cell_chars(a).len() == a.len());
        match blocks[i] {
            BlockView::CodeBlock { text, .. } => {
                assert(b == text_cells(i as usize, Seq::empty(), text));
                assert(cell == text_cells(i as usize, Seq::empty(), text)[k2]);
            },
            BlockView::Paragraph(il) => lemma_seq_cell(i as usize, Seq::empty(), il, il.len() as int, k2),
            BlockView::Heading { content, .. } => lemma_seq_cell(
                i as usize,
                Seq::empty(),
                content,
                content.len() as int,
                k2,
            ),
        }
        assert(cell.0.block_index == i);
    }
}

/// The leaf of cell `k` and the char index of the cell in it.
proof fn lemma_cell_leaf(doc: DocumentView, k: int) -> (r: (Seq<char>, (Seq<char>, Seq<char>), int))
    requires
        doc_fits(doc),
        0 <= k < doc_chars(doc).len(),
        leaf_text(doc, doc_chars(doc)[k].0) matches Some(t) ==> utf8_len(t) <= usize::MAX,
    ensures
        ({
            let c = doc_chars(doc)[k].0;
            let bi = c.block_index as int;
            let (t, lc, j) = r;
            &&& 0 <= bi < doc.blocks.len()
            &&& leaf_text(doc, c) == Some(t)
            &&& block_chars(doc.blocks[bi]) == lc.0 + t + lc.1
            &&& forall|t2: Seq<char>|
                #[trigger] block_chars(with_leaf_text(doc, c, t2).blocks[bi]) == lc.0 + t2 + lc.1
            &&& 0 <= j < t.len()
            &&& is_char_boundary(t, c.offset as int)
            &&& char_index_at(t, c.offset as int) == j
            &&& blocks_text(doc.blocks.take(bi)).len() + lc.0.len() + j == k
            &&& lc == leaf_lc(doc, c)
            &&& t[j] == doc_chars(doc)[k].1
        }),
{
    let blocks = doc.blocks;
    lemma_blocks_cell(blocks, blocks.len() as int, k);
    let cell = doc_chars(doc)[k];
    let c = cell.0;
    let bi = c.block_index as int;
    let pre = blocks_text(blocks.take(bi));
    let k2 = k - pre.len();
    let (t, lc): (Seq<char>, (Seq<char>, Seq<char>)) = match blocks[bi] {
        BlockView::CodeBlock { text, .. } => (text, (Seq::empty(), Seq::empty())),
        BlockView::Paragraph(il) => {
            assert(c.inline_path.skip(0) =~= c.inline_path);
            (text_at(il, c.inline_path)->0, leaf_context(il, c.inline_path))
        },
        BlockView::Heading { content, .. } => {
            assert(c.inline_path.skip(0) =~= c.inline_path);
            (text_at(content, c.inline_path)->0, leaf_context(content, c.inline_path))
        },
    };
    assert(leaf_text(doc, c) == Some(t));
    let j = k2 - lc.0.len();
    assert(cell_at_char(t, cell, j));
    crate::text::lemma_byte_offset_le_len(t, j);
    crate::text::lemma_char_index_at(t, j);
    assert(byte_offset_of(t, j) == c.offset);
    assert forall|t2: Seq<char>|
        #[trigger] block_chars(with_leaf_text(doc, c, t2).blocks[bi]) == lc.0 + t2 + lc.1 by {
        match blocks[bi] {
            BlockView::CodeBlock { .. } => {
                assert(t2 =~= Seq::<char>::empty() + t2 + Seq::<char>::empty());
            },
            BlockView::Paragraph(il) => {
                lemma_leaf_context(il, c.inline_path, t, t2);
            },
            BlockView::Heading { content, .. } => {
                lemma_leaf_context(content, c.inline_path, t, t2);
            },
        }
    }
    match blocks[bi] {
        BlockView::CodeBlock { .. } => {
            assert(t =~= Seq::<char>::empty() + t + Seq::<char>::empty());
        },
        BlockView::Paragraph(il) => {
            lemma_leaf_context(il, c.inline_path, t, t);
        },
        BlockView::Heading { content, .. } => {
            lemma_leaf_context(content, c.inline_path, t, t);
        },
    }
    (t, lc, j)
}

/// Each char of the document sits in the leaf its cell names, at its
/// cell's offset; taking it out of that leaf takes exactly that char out of
/// the document's text.
pub proof fn lemma_remove_char(doc: DocumentView, k: int)
    requires
        doc_fits(doc),
        0 <= k < doc_chars(doc).len(),
        leaf_text(doc, doc_chars(doc)[k].0) matches Some(t) ==> utf8_len(t) <= usize::MAX,
    ensures
        ({
            let c = doc_chars(doc)[k].0;
            &&& leaf_text(doc, c) matches Some(t) && is_char_boundary(t, c.offset as int)
                && char_index_at(t, c.offset as int) < t.len()
            &&& doc_text(remove_char_spec(doc, k)) == doc_text(doc).remove(k)
        }),
{
    let c = doc_chars(doc)[k].0;
    let bi = c.block_index as int;
    let (t, lc, j) = lemma_cell_leaf(doc, k);
    let t2 = t.remove(j);
    let nd = with_leaf_text(doc, c, t2);
    assert(remove_char_spec(doc, k) == nd);
    assert(block_chars(nd.blocks[bi]) == lc.0 + t2 + lc.1);
    lemma_doc_text_blocks(doc);
    lemma_doc_text_blocks(nd);
    let nb = nd.blocks[bi];
    assert(nd.blocks == doc.blocks.update(bi, nb));
    let pq = lemma_replace_block_middle(doc.blocks, bi, nb, lc.0, lc.1, t, t2);
    assert(pq.0.len() + j == k);
    assert(doc_text(nd) =~= doc_text(doc).remove(k));
}


/// Each char of a fitting document has a leaf.
pub proof fn lemma_cell_has_leaf(doc: DocumentView, k: int)
    requires
        doc_fits(doc),
        0 <= k < doc_chars(doc).len(),
    ensures
        leaf_text(doc, doc_chars(doc)[k].0) is Some,
{
    let blocks = doc.blocks;
    lemma_blocks_cell(blocks, blocks.len() as int, k);
    let c = doc_chars(doc)[k].0;
    assert(c.inline_path.skip(0) =~= c.inline_path);
}


/// Every text leaf of the document has a `usize` UTF-8 length, as in a
/// document in memory.
pub open spec fn leaves_fit(doc: DocumentView) -> bool {
    forall|c: CursorView|
        #[trigger] leaf_text(doc, c) matches Some(t) ==> utf8_len(t) <= usize::MAX
}

/// Replacing the text of a leaf keeps the inline sequences' lengths.
proof fn lemma_set_text_fits(il: Seq<InlineView>, path: Seq<usize>, t: Seq<char>)
    requires
        inlines_fit(il),
    ensures
        inlines_fit(with_text_at(il, path, t)),
    decreases path.len(),
{
    if path.len() > 1 && path[0] < il.len() {
        let i = path[0] as int;
        if let Some(ch) = children(il[i]) {
            assert(node_fits(il[i]));
            lemma_set_text_fits(ch, path.drop_first(), t);
            let il2 = with_text_at(il, path, t);
            assert forall|j: int| 0 <= j < il2.len() implies node_fits(#[trigger] il2[j]) by {
                if j != i {
                    assert(il2[j] == il[j]);
                }
            }
        }
    } else if path.len() == 1 && path[0] < il.len() {
        let il2 = with_text_at(il, path, t);
        assert forall|j: int| 0 <= j < il2.len() implies node_fits(#[trigger] il2[j]) by {
            if j != path[0] as int {
                assert(il2[j] == il[j]);
            }
        }
    }
}

/// A text leaf after replacing the leaf at `p` by `t2` is `t2` or a leaf
/// that was there before.
proof fn lemma_leaf_after_set(il: Seq<InlineView>, p: Seq<usize>, t2: Seq<char>, q: Seq<usize>)
    ensures
        text_at(with_text_at(il, p, t2), q) matches Some(u) ==> u == t2 || text_at(il, q) == Some(u),
    decreases q.len(),
{
    let il2 = with_text_at(il, p, t2);
    if q.len() == 0 || q[0] >= il.len() || p.len() == 0 || p[0] >= il.len() {
    } else {
        let i = p[0] as int;
        let j = q[0] as int;
        if j != i {
            assert(il2[j] == il[j]);
            if q.len() > 1 && children(il[j]) is Some {
                lemma_node_at_step(il, q);
                lemma_node_at_step(il2, q);
            }
        } else if q.len() == 1 {
        } else if p.len() == 1 {
            assert(il2[i] == InlineView::Text(t2));
        } else {
            match children(il[i]) {
                Some(ch) => {
                    lemma_leaf_after_set(ch, p.drop_first(), t2, q.drop_first());
                    assert(children(il2[i]) == Some(with_text_at(ch, p.drop_first(), t2)));
                    lemma_node_at_step(il, q);
                    lemma_node_at_step(il2, q);
                },
                None => {},
            }
        }
    }
}

/// Taking a char out of a text does not make it longer in UTF-8.
proof fn lemma_utf8_remove(t: Seq<char>, j: int)
    requires
        0 <= j < t.len(),
    ensures
        utf8_len(t.remove(j)) <= utf8_len(t),
{
    assert(t =~= t.take(j) + (seq![t[j]] + t.skip(j + 1)));
    assert(t.remove(j) =~= t.take(j) + t.skip(j + 1));
    crate::text::lemma_utf8_len_concat(t.take(j), seq![t[j]] + t.skip(j + 1));
    crate::text::lemma_utf8_len_concat(seq![t[j]], t.skip(j + 1));
    crate::text::lemma_utf8_len_concat(t.take(j), t.skip(j + 1));
}

/// Taking a char out of a fitting document leaves it fitting.
proof fn lemma_remove_char_fits(doc: DocumentView, k: int)
    requires
        doc_fits(doc),
        leaves_fit(doc),
        0 <= k < doc_chars(doc).len(),
    ensures
        doc_fits(remove_char_spec(doc, k)),
        leaves_fit(remove_char_spec(doc, k)),
        doc_text(remove_char_spec(doc, k)) == doc_text(doc).remove(k),
        doc_chars(remove_char_spec(doc, k)).len() == doc_chars(doc).len() - 1,
        remove_char_spec(doc, k).generation == doc.generation,
{
    let c = doc_chars(doc)[k].0;
    let bi = c.block_index as int;
    assert(leaf_text(doc, c) matches Some(t) ==> utf8_len(t) <= usize::MAX);
    lemma_remove_char(doc, k);
    let t = leaf_text(doc, c)->0;
    let j = char_index_at(t, c.offset as int);
    let t2 = t.remove(j);
    let nd = remove_char_spec(doc, k);
    assert(nd == with_leaf_text(doc, c, t2));
    lemma_utf8_remove(t, j);
    assert(doc_text(nd).len() == doc_chars(nd).len());
    assert(doc_text(doc).len() == doc_chars(doc).len());
    assert forall|i: int| 0 <= i < nd.blocks.len() implies block_fits(#[trigger] nd.blocks[i]) by {
        if i == bi {
            match doc.blocks[bi] {
                BlockView::Paragraph(il) => lemma_set_text_fits(il, c.inline_path, t2),
                BlockView::Heading { content, .. } => lemma_set_text_fits(content, c.inline_path, t2),
                BlockView::CodeBlock { .. } => {},
            }
        } else {
            assert(nd.blocks[i] == doc.blocks[i]);
        }
    }
    assert forall|c2: CursorView| #[trigger] leaf_text(nd, c2) is Some implies utf8_len(
        leaf_text(nd, c2)->0,
    ) <= usize::MAX by {
        if c2.block_index as int == bi {
            match doc.blocks[bi] {
                BlockView::Paragraph(il) => lemma_leaf_after_set(il, c.inline_path, t2, c2.inline_path),
                BlockView::Heading { content, .. } => lemma_leaf_after_set(
                    content,
                    c.inline_path,
                    t2,
                    c2.inline_path,
                ),
                BlockView::CodeBlock { .. } => {},
            }
            assert(leaf_text(doc, c2) matches Some(v) ==> utf8_len(v) <= usize::MAX);
        } else {
            assert(c2.block_index < nd.blocks.len() ==> nd.blocks[c2.block_index as int] == doc.blocks[c2.block_index as int]);
            assert(leaf_text(nd, c2) == leaf_text(doc, c2));
            assert(leaf_text(doc, c2) matches Some(v) ==> utf8_len(v) <= usize::MAX);
        }
    }
}

/// Deleting the chars with global indices `lo..hi` of a document in memory
/// takes exactly those chars out of its text and leaves the caret at gap
/// `lo`; it fails only when `hi` lies past the last char.
pub proof fn lemma_delete_range_text(doc: DocumentView, st: EditorStateView, lo: int, hi: int)
    requires
        doc_fits(doc),
        leaves_fit(doc),
        0 <= lo <= hi,
    ensures
        ({
            let r = crate::edit::delete_range_spec(doc, st, lo, hi);
            &&& r.2 <==> hi <= doc_text(doc).len()
            &&& r.2 ==> {
                &&& doc_text(r.0) == doc_text(doc).take(lo) + doc_text(doc).skip(hi)
                &&& cursor_at_gap(r.0, lo) matches Some(g) && r.1 == with_cursor(st, g)
                &&& gap_index_of(r.0, r.1.cursor) == Some(lo)
                &&& r.0.blocks.len() == doc.blocks.len()
                &&& doc_fits(r.0) && leaves_fit(r.0)
            }
            &&& !r.2 ==> r.0 == doc && r.1 == st
        }),
    decreases hi - lo,
{
    let n = doc_chars(doc).len();
    assert(doc_text(doc).len() == n);
    if hi <= lo {
        if lo <= n {
            assert(doc_text(doc).take(lo) + doc_text(doc).skip(hi) =~= doc_text(doc));
            lemma_gap_exact_roundtrip(doc, lo);
        } else {
            assert(cursor_at_gap(doc, lo) is None);
        }
    } else if hi > n {
    } else {
        let nd = remove_char_spec(doc, hi - 1);
        lemma_remove_char_fits(doc, hi - 1);
        lemma_delete_range_text(nd, st, lo, hi - 1);
        let t = doc_text(doc);
        assert(doc_text(nd) == t.remove(hi - 1));
        assert(doc_text(nd).take(lo) + doc_text(nd).skip(hi - 1) =~= t.take(lo) + t.skip(hi));
        assert(nd.blocks.len() == doc.blocks.len());
    }
}


/// Snapping an offset that is already snapped keeps it.
proof fn lemma_snap_idempotent(s: Seq<char>, off: usize)
    ensures
        snap_text_offset(s, snap_text_offset(s, off)) == snap_text_offset(s, off),
        snap_code_offset(s, snap_code_offset(s, off)) == snap_code_offset(s, off),
{
    let o = if off > utf8_len(s) {
        utf8_len(s) as int
    } else {
        off as int
    };
    lemma_floor_char_index(s, o);
    let f = floor_char_index(s, o);
    lemma_byte_offset_le_len(s, f);
    assert(byte_offset_of(s, f) <= o);
    lemma_floor_at_offset(s, f);
}

proof fn lemma_normalize_below_idempotent(il: Seq<InlineView>, path: Seq<usize>, off: usize)
    ensures
        ({
            let r = normalize_below(il, path, off);
            normalize_below(il, r.0, r.1) == r
        }),
    decreases il, 0nat,
{
    if il.len() > 0 {
        let idx = crate::cursor::clamp_child(path, il.len());
        let rest = if path.len() == 0 {
            Seq::<usize>::empty()
        } else {
            path.drop_first()
        };
        match il[idx as int] {
            InlineView::Text(t) => lemma_snap_idempotent(t, off),
            InlineView::Bold(v) => lemma_normalize_into_idempotent(idx, v, rest, off),
            InlineView::Italic(v) => lemma_normalize_into_idempotent(idx, v, rest, off),
            InlineView::Link { text, .. } => lemma_normalize_into_idempotent(idx, text, rest, off),
        }
    }
}

proof fn lemma_normalize_into_idempotent(idx: usize, v: Seq<InlineView>, rest: Seq<usize>, off: usize)
    ensures
        ({
            let r = crate::cursor::normalize_into(idx, v, rest, off);
            r.0.len() >= 1 && r.0[0] == idx && crate::cursor::normalize_into(idx, v, r.0.drop_first(), r.1) == r
        }),
    decreases v, 1nat,
{
    if v.len() == 0 {
        assert(seq![idx].drop_first() =~= Seq::<usize>::empty());
    } else {
        lemma_normalize_below_idempotent(v, rest, off);
        let r2 = normalize_below(v, rest, off);
        assert((seq![idx] + r2.0).drop_first() =~= r2.0);
    }
}

/// Normalizing a cursor twice gives what normalizing it once gives.
pub proof fn lemma_normalized_idempotent(c: CursorView, doc: DocumentView)
    ensures
        normalized(normalized(c, doc), doc) == normalized(c, doc),
{
    let n = normalized(c, doc);
    if doc.blocks.len() > 0 {
        let bi = n.block_index as int;
        match doc.blocks[bi] {
            BlockView::CodeBlock { text, .. } => lemma_snap_idempotent(text, c.offset),
            BlockView::Paragraph(il) => {
                if il.len() > 0 {
                    let tp = top_level_path(c.inline_path, il.len());
                    lemma_normalize_below_idempotent(il, tp, c.offset);
                    lemma_normalize_below_leaf(il, tp, c.offset);
                }
            },
            BlockView::Heading { content, .. } => {
                if content.len() > 0 {
                    let tp = top_level_path(c.inline_path, content.len());
                    lemma_normalize_below_idempotent(content, tp, c.offset);
                    lemma_normalize_below_leaf(content, tp, c.offset);
                }
            },
        }
    }
}


/// The text of the cursor's block before and after its leaf.
pub open spec fn leaf_lc(doc: DocumentView, c: CursorView) -> (Seq<char>, Seq<char>) {
    match doc.blocks[c.block_index as int] {
        BlockView::CodeBlock { .. } => (Seq::empty(), Seq::empty()),
        BlockView::Paragraph(il) => leaf_context(il, c.inline_path),
        BlockView::Heading { content, .. } => leaf_context(content, c.inline_path),
    }
}

/// Where the cursor's leaf starts in the document's text.
pub open spec fn leaf_pos(doc: DocumentView, c: CursorView) -> int {
    (blocks_text(doc.blocks.take(c.block_index as int)).len() + leaf_lc(doc, c).0.len()) as int
}

/// The document's text around the cursor's leaf, before and after a change
/// of that leaf's text.
proof fn lemma_leaf_split(doc: DocumentView, c: CursorView, t: Seq<char>, t2: Seq<char>) -> (pq: (
    Seq<char>,
    Seq<char>,
))
    requires
        leaf_text(doc, c) == Some(t),
    ensures
        doc_text(doc) == pq.0 + t + pq.1,
        doc_text(with_leaf_text(doc, c, t2)) == pq.0 + t2 + pq.1,
        pq.0.len() == leaf_pos(doc, c),
{
    let bi = c.block_index as int;
    let lc = leaf_lc(doc, c);
    match doc.blocks[bi] {
        BlockView::CodeBlock { .. } => {
            assert(t =~= Seq::<char>::empty() + t + Seq::<char>::empty());
            assert(t2 =~= Seq::<char>::empty() + t2 + Seq::<char>::empty());
        },
        BlockView::Paragraph(il) => lemma_leaf_context(il, c.inline_path, t, t2),
        BlockView::Heading { content, .. } => lemma_leaf_context(content, c.inline_path, t, t2),
    }
    lemma_doc_text_blocks(doc);
    let nd = with_leaf_text(doc, c, t2);
    lemma_doc_text_blocks(nd);
    let nb = nd.blocks[bi];
    assert(nd.blocks == doc.blocks.update(bi, nb));
    lemma_replace_block_middle(doc.blocks, bi, nb, lc.0, lc.1, t, t2)
}

/// The gap of a caret on a text leaf is where that leaf starts in the text
/// plus the caret's char index in the leaf.
pub proof fn lemma_caret_gap(doc: DocumentView, c: CursorView, g: int)
    requires
        doc_fits(doc),
        leaf_text(doc, c) matches Some(t) && utf8_len(t) <= usize::MAX && is_char_boundary(
            t,
            c.offset as int,
        ),
        gap_index_of(doc, c) == Some(g),
    ensures
        g == leaf_pos(doc, c) + char_index_at(leaf_text(doc, c)->0, c.offset as int),
{
    let t = leaf_text(doc, c)->0;
    let flat = doc_chars(doc);
    let n = flat.len() as int;
    lemma_boundary_index(t, c.offset as int);
    let k = char_index_at(t, c.offset as int);
    lemma_first_index_props(n, cell_starts_at(flat, c));
    lemma_first_index_props(n, cell_ends_at(flat, c));
    match first_index(n, cell_starts_at(flat, c)) {
        Some(m) => {
            assert(flat[m].0 == c);
            lemma_cell_leaf(doc, m);
        },
        None => match first_index(n, cell_ends_at(flat, c)) {
            Some(i) => {
                let ci = flat[i].0;
                assert(after_char(ci, flat[i].1) == c);
                assert(leaf_text(doc, ci) == leaf_text(doc, c));
                let (t1, lc, j) = lemma_cell_leaf(doc, i);
                assert(t1 == t);
                lemma_byte_offset_le_len(t, j);
                lemma_boundary_index(t, ci.offset as int);
                assert(byte_offset_of(t, j) == ci.offset);
                assert(flat[i].1 == t[j]);
                crate::text::lemma_byte_offset_step(t, j);
                lemma_byte_offset_le_len(t, j + 1);
                crate::text::lemma_char_index_at(t, j + 1);
                assert(byte_offset_of(t, j + 1) == c.offset);
            },
            None => {
                assert(n == 0);
                let pq = lemma_leaf_split(doc, c, t, t);
                assert(doc_text(doc).len() == 0);
            },
        },
    }
}

/// Typing a char at a caret on a text leaf puts it into the document's text
/// at the caret's own gap.
pub proof fn lemma_insert_at_caret_gap(doc: DocumentView, st: EditorStateView, ch: char, g: int)
    requires
        doc_fits(doc),
        leaf_text(doc, normalized(st.cursor, doc)) matches Some(t) && utf8_len(t) <= usize::MAX,
        gap_index_of(doc, normalized(st.cursor, doc)) == Some(g),
    ensures
        insert_char_spec(doc, st, ch).2,
        doc_text(insert_char_spec(doc, st, ch).0) == doc_text(doc).insert(g, ch),
{
    let c = normalized(st.cursor, doc);
    let t = leaf_text(doc, c)->0;
    lemma_normalized_leaf(st.cursor, doc);
    lemma_caret_gap(doc, c, g);
    lemma_boundary_index(t, c.offset as int);
    let k = char_index_at(t, c.offset as int);
    let t2 = t.insert(k, ch);
    let pq = lemma_leaf_split(doc, c, t, t2);
    assert(doc_text(with_leaf_text(doc, c, t2)) =~= doc_text(doc).insert(g, ch));
}


/// The text leaf that `q` reaches from node `x` (`x` itself when `q` is empty).
pub open spec fn node_leaf(x: InlineView, q: Seq<usize>) -> Option<Seq<char>> {
    if q.len() == 0 {
        match x {
            InlineView::Text(t) => Some(t),
            _ => None,
        }
    } else {
        match children(x) {
            Some(ch) => text_at(ch, q),
            None => None,
        }
    }
}

/// The chars of node `x` before the leaf that `q` reaches.
pub open spec fn node_before(x: InlineView, q: Seq<usize>) -> Seq<char> {
    if q.len() == 0 {
        Seq::empty()
    } else {
        match children(x) {
            Some(ch) => leaf_context(ch, q).0,
            None => Seq::empty(),
        }
    }
}

proof fn lemma_node_cell_at(bi: usize, path0: Seq<usize>, x: InlineView, q: Seq<usize>, j: int)
    requires
        node_fits(x),
        node_leaf(x, q) matches Some(t) && 0 <= j < t.len(),
    ensures
        ({
            let t = node_leaf(x, q)->0;
            let idx = node_before(x, q).len() + j;
            &&& idx < flatten_node(bi, path0, x).len()
            &&& flatten_node(bi, path0, x)[idx] == (
                CursorView { block_index: bi, inline_path: path0 + q, offset: byte_offset_of(t, j) as usize },
                t[j],
            )
        }),
    decreases x, 0int,
{
    if q.len() == 0 {
        assert(path0 + q =~= path0);
    } else {
        match x {
            InlineView::Text(_) => {},
            InlineView::Bold(v) => lemma_seq_cell_at(bi, path0, v, v.len() as int, q, j),
            InlineView::Italic(v) => lemma_seq_cell_at(bi, path0, v, v.len() as int, q, j),
            InlineView::Link { text, .. } => lemma_seq_cell_at(bi, path0, text, text.len() as int, q, j),
        }
    }
}

proof fn lemma_inline_text_take_mono(s: Seq<InlineView>, a: int, b: int)
    requires
        0 <= a <= b <= s.len(),
    ensures
        inline_text(s.take(a)).len() <= inline_text(s.take(b)).len(),
{
    assert(s.take(b) =~= s.take(a) + s.subrange(a, b));
    lemma_inline_text_concat(s.take(a), s.subrange(a, b));
}

proof fn lemma_seq_cell_at(bi: usize, prefix: Seq<usize>, s: Seq<InlineView>, n: int, p: Seq<usize>, j: int)
    requires
        inlines_fit(s),
        0 <= n <= s.len(),
        p.len() >= 1,
        p[0] < n,
        text_at(s, p) matches Some(t) && 0 <= j < t.len(),
    ensures
        ({
            let t = text_at(s, p)->0;
            let idx = leaf_context(s, p).0.len() + j;
            &&& idx < flatten_seq(bi, prefix, s, n).len()
            &&& flatten_seq(bi, prefix, s, n)[idx] == (
                CursorView { block_index: bi, inline_path: prefix + p, offset: byte_offset_of(t, j) as usize },
                t[j],
            )
        }),
    decreases s, 1int, n,
{
    let t = text_at(s, p)->0;
    let i = n - 1;
    let a = flatten_seq(bi, prefix, s, n - 1);
    let path0 = prefix.push(i as usize);
    let b = flatten_node(bi, path0, s[i]);
    assert(flatten_seq(bi, prefix, s, n) == a + b);
    let pi = p[0] as int;
    let q = p.drop_first();
    let lc = leaf_context(s, p);
    let x = s[pi];
    assert(node_fits(x));
    assert(node_leaf(x, q) == Some(t)) by {
        if p.len() > 1 {
            lemma_node_at_step(s, p);
        }
    }
    assert(lc.0 == inline_text(s.take(pi)) + node_before(x, q));
    let inner = node_before(x, q);
    // the leaf's chars lie within node `x`'s chars
    assert(inner.len() + j < node_text(x).len()) by {
        if q.len() > 0 {
            let ch = children(x)->0;
            lemma_leaf_context(ch, q, t, t);
        }
    }
    lemma_seq_chars(bi, prefix, s, n - 1);
    assert(cell_chars(a).len() == a.len());
    if pi == i {
        lemma_node_cell_at(bi, path0, x, q, j);
        assert(path0 + q =~= prefix + p);
    } else {
        lemma_seq_cell_at(bi, prefix, s, n - 1, p, j);
    }
}

/// The cells of a text leaf: char `j` of the leaf at `c` is cell
/// `leaf_pos(doc, c) + j`, at the leaf's path and the char's offset.
pub proof fn lemma_doc_cell_at(doc: DocumentView, c: CursorView, j: int)
    requires
        doc_fits(doc),
        leaf_text(doc, c) matches Some(t) && 0 <= j < t.len(),
        doc.blocks[c.block_index as int] is CodeBlock ==> c.inline_path.len() == 0,
    ensures
        ({
            let t = leaf_text(doc, c)->0;
            let idx = leaf_pos(doc, c) + j;
            &&& idx < doc_chars(doc).len()
            &&& doc_chars(doc)[idx] == (CursorView { offset: byte_offset_of(t, j) as usize, ..c }, t[j])
        }),
{
    let t = leaf_text(doc, c)->0;
    let bi = c.block_index as int;
    let blocks = doc.blocks;
    let nb = blocks.len() as int;
    // cells of blocks up to and including bi, then the rest
    lemma_blocks_cell_chars(blocks, bi);
    let a = flatten_blocks(blocks, bi);
    let b = flatten_block(bi as usize, blocks[bi]);
    assert(cell_chars(a).len() == a.len());
    assert(flatten_blocks(blocks, bi + 1) == a + b);
    let lc = leaf_lc(doc, c);
    let inner_idx = lc.0.len() + j;
    assert(inner_idx < b.len() && b[inner_idx] == (CursorView { offset: byte_offset_of(t, j) as usize, ..c }, t[j])) by {
        match blocks[bi] {
            BlockView::CodeBlock { text, .. } => {
                assert(c.inline_path =~= Seq::<usize>::empty());
            },
            BlockView::Paragraph(il) => {
                assert(block_fits(blocks[bi]));
                lemma_seq_cell_at(bi as usize, Seq::empty(), il, il.len() as int, c.inline_path, j);
                assert(Seq::<usize>::empty() + c.inline_path =~= c.inline_path);
            },
            BlockView::Heading { content, .. } => {
                assert(block_fits(blocks[bi]));
                lemma_seq_cell_at(bi as usize, Seq::empty(), content, content.len() as int, c.inline_path, j);
                assert(Seq::<usize>::empty() + c.inline_path =~= c.inline_path);
            },
        }
    }
    lemma_flatten_blocks_prefix(blocks, bi + 1, nb);
}

/// The cells of the first `m` blocks begin the cells of the first `n`.
proof fn lemma_flatten_blocks_prefix(blocks: Seq<BlockView>, m: int, n: int)
    requires
        0 <= m <= n <= blocks.len(),
    ensures
        flatten_blocks(blocks, m).len() <= flatten_blocks(blocks, n).len(),
        forall|i: int| 0 <= i < flatten_blocks(blocks, m).len() ==> #[trigger] flatten_blocks(blocks, n)[i]
            == flatten_blocks(blocks, m)[i],
    decreases n - m,
{
    if m < n {
        lemma_flatten_blocks_prefix(blocks, m, n - 1);
        assert(flatten_blocks(blocks, n) == flatten_blocks(blocks, n - 1) + flatten_block(
            (n - 1) as usize,
            blocks[n - 1],
        ));
    }
}


/// Changing the text of the leaf at `p` keeps the text around it.
proof fn lemma_leaf_context_after_set(il: Seq<InlineView>, p: Seq<usize>, t2: Seq<char>)
    requires
        text_at(il, p) is Some,
    ensures
        leaf_context(with_text_at(il, p, t2), p) == leaf_context(il, p),
    decreases p.len(),
{
    let i = p[0] as int;
    let il2 = with_text_at(il, p, t2);
    assert(il2.take(i) =~= il.take(i));
    assert(il2.skip(i + 1) =~= il.skip(i + 1));
    if p.len() > 1 {
        let ch = children(il[i])->0;
        lemma_node_at_step(il, p);
        lemma_leaf_context_after_set(ch, p.drop_first(), t2);
        assert(children(il2[i]) == Some(with_text_at(ch, p.drop_first(), t2)));
    }
}

/// Changing the text of a leaf keeps a fitting document fitting, leaves the
/// new text at the leaf, and keeps where the leaf starts in the text.
proof fn lemma_set_leaf_keeps(doc: DocumentView, c: CursorView, t2: Seq<char>)
    requires
        doc_fits(doc),
        leaf_text(doc, c) is Some,
    ensures
        doc_fits(with_leaf_text(doc, c, t2)),
        leaf_text(with_leaf_text(doc, c, t2), c) == Some(t2),
        leaf_pos(with_leaf_text(doc, c, t2), c) == leaf_pos(doc, c),
        with_leaf_text(doc, c, t2).blocks.len() == doc.blocks.len(),
        with_leaf_text(doc, c, t2).blocks[c.block_index as int] is CodeBlock <==> doc.blocks[c.block_index as int] is CodeBlock,
{
    let nd = with_leaf_text(doc, c, t2);
    let bi = c.block_index as int;
    assert(nd.blocks.take(bi) =~= doc.blocks.take(bi));
    assert forall|i: int| 0 <= i < nd.blocks.len() implies block_fits(#[trigger] nd.blocks[i]) by {
        if i == bi {
            match doc.blocks[bi] {
                BlockView::Paragraph(il) => lemma_set_text_fits(il, c.inline_path, t2),
                BlockView::Heading { content, .. } => lemma_set_text_fits(content, c.inline_path, t2),
                BlockView::CodeBlock { .. } => {},
            }
        } else {
            assert(nd.blocks[i] == doc.blocks[i]);
        }
    }
    match doc.blocks[bi] {
        BlockView::Paragraph(il) => {
            lemma_text_at_after_set(il, c.inline_path, t2);
            lemma_leaf_context_after_set(il, c.inline_path, t2);
        },
        BlockView::Heading { content, .. } => {
            lemma_text_at_after_set(content, c.inline_path, t2);
            lemma_leaf_context_after_set(content, c.inline_path, t2);
        },
        BlockView::CodeBlock { .. } => {},
    }
}

/// Typing a char with the caret on a text leaf (or in a code block), where
/// the caret has gap `g`, puts the char into the document's text at gap
/// `g` and leaves the caret at gap `g + 1`; the blocks and the selection
/// stay as they were.
pub proof fn lemma_typing_at_caret(doc: DocumentView, st: EditorStateView, ch: char, g: int)
    requires
        doc_fits(doc),
        leaf_text(doc, normalized(st.cursor, doc)) matches Some(t) && utf8_len(t) + 4 <= usize::MAX,
        gap_index_of(doc, normalized(st.cursor, doc)) == Some(g),
    ensures
        ({
            let r = insert_char_spec(doc, st, ch);
            &&& r.2
            &&& doc_text(r.0) == doc_text(doc).insert(g, ch)
            &&& gap_index_of(r.0, r.1.cursor) == Some(g + 1)
            &&& r.0.blocks.len() == doc.blocks.len()
            &&& r.1.selection == st.selection
        }),
{
    let c = normalized(st.cursor, doc);
    let t = leaf_text(doc, c)->0;
    lemma_insert_at_caret_gap(doc, st, ch, g);
    lemma_normalized_leaf(st.cursor, doc);
    lemma_caret_gap(doc, c, g);
    lemma_boundary_index(t, c.offset as int);
    let k = char_index_at(t, c.offset as int);
    let t2 = t.insert(k, ch);
    let nd = with_leaf_text(doc, c, t2);
    let r = insert_char_spec(doc, st, ch);
    assert(r.0 == nd);
    let c2 = r.1.cursor;
    crate::text::lemma_insert_offsets(t, k, ch);
    lemma_byte_offset_le_len(t, k);
    assert(c2 == with_offset(c, byte_offset_of(t2, k + 1) as usize));
    lemma_set_leaf_keeps(doc, c, t2);
    assert(leaf_text(nd, c2) == Some(t2));
    assert(leaf_pos(nd, c2) == leaf_pos(doc, c));
    assert(doc.blocks[c.block_index as int] is CodeBlock ==> c.inline_path.len() == 0);
    let flat = doc_chars(nd);
    let n = flat.len() as int;
    lemma_first_index_props(n, cell_starts_at(flat, c2));
    lemma_first_index_props(n, cell_ends_at(flat, c2));
    lemma_byte_offset_le_len(t2, k + 1);
    crate::text::lemma_char_index_at(t2, k + 1);
    if k + 1 < t2.len() {
        lemma_doc_cell_at(nd, c2, k + 1);
        let idx = leaf_pos(doc, c) + k + 1;
        assert(flat[idx].0 == c2);
        assert(cell_starts_at(flat, c2)(idx));
        let m = first_index(n, cell_starts_at(flat, c2))->0;
        assert(flat[m].0 == c2);
        lemma_cell_leaf(nd, m);
    } else {
        assert forall|m: int| 0 <= m < n implies !#[trigger] cell_starts_at(flat, c2)(m) by {
            if flat[m].0 == c2 {
                lemma_cell_leaf(nd, m);
            }
        }
        lemma_doc_cell_at(nd, c2, k);
        let idx = leaf_pos(doc, c) + k;
        lemma_byte_offset_le_len(t2, k);
        crate::text::lemma_byte_offset_step(t2, k);
        assert(t2[k] == ch);
        assert(after_char(flat[idx].0, flat[idx].1) == c2);
        assert(cell_ends_at(flat, c2)(idx));
        let m = first_index(n, cell_ends_at(flat, c2))->0;
        let cm = flat[m].0;
        assert(after_char(cm, flat[m].1) == c2);
        assert(leaf_text(nd, cm) == leaf_text(nd, c2));
        let (t1, lc, jm) = lemma_cell_leaf(nd, m);
        lemma_byte_offset_le_len(t2, jm);
        lemma_boundary_index(t2, cm.offset as int);
        crate::text::lemma_byte_offset_step(t2, jm);
        lemma_byte_offset_le_len(t2, jm + 1);
        assert(byte_offset_of(t2, jm + 1) == byte_offset_of(t2, k + 1));
        if jm + 1 < k + 1 {
            crate::text::lemma_byte_offset_strict_mono(t2, jm + 1, k + 1);
        } else if jm + 1 > k + 1 {
            crate::text::lemma_byte_offset_strict_mono(t2, k + 1, jm + 1);
        }
    }
}


/// `reduce_edit` with `InsertChar` and no non-empty selection: with the
/// caret on a text leaf (or in a code block) at gap `g`, the char goes into
/// the text at gap `g`, the caret ends at gap `g + 1`, and the blocks and
/// the selection stay as they were.
pub proof fn lemma_reduce_typing_at_caret(doc: DocumentView, st: EditorStateView, ch: char, g: int)
    requires
        take_range(with_cursor(st, normalized(st.cursor, doc))).0 is None,
        doc_fits(doc),
        leaf_text(doc, normalized(st.cursor, doc)) matches Some(t) && utf8_len(t) + 4 <= usize::MAX,
        gap_index_of(doc, normalized(st.cursor, doc)) == Some(g),
    ensures
        ({
            let r = reduce_edit_spec(doc, st, EditOpView::InsertChar(ch));
            &&& r.2
            &&& doc_text(r.0) == doc_text(doc).insert(g, ch)
            &&& gap_index_of(r.0, r.1.cursor) == Some(g + 1)
            &&& r.0.blocks.len() == doc.blocks.len()
            &&& r.1.selection == st.selection
        }),
{
    let st1 = with_cursor(st, normalized(st.cursor, doc));
    lemma_normalized_idempotent(st.cursor, doc);
    assert(normalized(st1.cursor, doc) == normalized(st.cursor, doc));
    lemma_typing_at_caret(doc, st1, ch, g);
    let e = insert_char_spec(doc, st1, ch);
    let r = reduce_edit_spec(doc, st, EditOpView::InsertChar(ch));
    assert(r.0.blocks == e.0.blocks);
    assert(doc_chars(r.0) == doc_chars(e.0));
    assert(doc_text(r.0) == doc_text(e.0));
}


/// Two cells with the same cursor are the same cell.
proof fn lemma_cell_cursor_unique(doc: DocumentView, a: int, b: int)
    requires
        doc_fits(doc),
        leaves_fit(doc),
        0 <= a < doc_chars(doc).len(),
        0 <= b < doc_chars(doc).len(),
        doc_chars(doc)[a].0 == doc_chars(doc)[b].0,
    ensures
        a == b,
{
    let c = doc_chars(doc)[a].0;
    assert(leaf_text(doc, c) matches Some(t) ==> utf8_len(t) <= usize::MAX);
    lemma_cell_leaf(doc, a);
    lemma_cell_leaf(doc, b);
}

/// The cell after which a caret sits is the cell just before the caret's
/// own position: a cell that ends at `c` is cell `pos - 1` of the leaf of
/// `c`, where the caret is at char `pos - leaf_pos` of that leaf.
proof fn lemma_cell_end(doc: DocumentView, a: int)
    requires
        doc_fits(doc),
        leaves_fit(doc),
        0 <= a < doc_chars(doc).len(),
    ensures
        ({
            let cell = doc_chars(doc)[a];
            let e = after_char(cell.0, cell.1);
            let t = leaf_text(doc, e)->0;
            &&& leaf_text(doc, e) is Some
            &&& is_char_boundary(t, e.offset as int)
            &&& leaf_pos(doc, e) + char_index_at(t, e.offset as int) == a + 1
        }),
{
    let cell = doc_chars(doc)[a];
    let c = cell.0;
    let e = after_char(c, cell.1);
    assert(leaf_text(doc, c) matches Some(t) ==> utf8_len(t) <= usize::MAX);
    let (t, lc, j) = lemma_cell_leaf(doc, a);
    assert(leaf_text(doc, e) == leaf_text(doc, c));
    assert(leaf_lc(doc, e) == leaf_lc(doc, c));
    lemma_byte_offset_le_len(t, j);
    lemma_boundary_index(t, c.offset as int);
    crate::text::lemma_byte_offset_step(t, j);
    lemma_byte_offset_le_len(t, j + 1);
    crate::text::lemma_char_index_at(t, j + 1);
    assert(byte_offset_of(t, j + 1) == e.offset);
}

/// Every gap of a document in memory has a caret, and that caret's gap is
/// the gap itself.
pub proof fn lemma_gap_exact_roundtrip(doc: DocumentView, g: int)
    requires
        doc_fits(doc),
        leaves_fit(doc),
        0 <= g <= doc_chars(doc).len(),
    ensures
        cursor_at_gap(doc, g) matches Some(c) && gap_index_of(doc, c) == Some(g),
{
    let flat = doc_chars(doc);
    let n = flat.len() as int;
    if g < n {
        let c = flat[g].0;
        lemma_first_index_props(n, cell_starts_at(flat, c));
        assert(cell_starts_at(flat, c)(g));
        let m = first_index(n, cell_starts_at(flat, c))->0;
        lemma_cell_cursor_unique(doc, m, g);
    } else if n > 0 {
        let c = after_char(flat[n - 1].0, flat[n - 1].1);
        lemma_cell_end(doc, n - 1);
        lemma_first_index_props(n, cell_starts_at(flat, c));
        lemma_first_index_props(n, cell_ends_at(flat, c));
        assert forall|m: int| 0 <= m < n implies !#[trigger] cell_starts_at(flat, c)(m) by {
            if flat[m].0 == c {
                assert(leaf_text(doc, c) matches Some(t) ==> utf8_len(t) <= usize::MAX);
                lemma_cell_leaf(doc, m);
            }
        }
        assert(cell_ends_at(flat, c)(n - 1));
        let m = first_index(n, cell_ends_at(flat, c))->0;
        lemma_cell_end(doc, m);
    }
}


/// Moving one char forward from the start of a char and then one char back
/// returns to that start.
pub proof fn lemma_prev_undoes_next(doc: DocumentView, j: int)
    requires
        doc_fits(doc),
        leaves_fit(doc),
        0 <= j < doc_chars(doc).len(),
    ensures
        crate::edit::prev_char_target(
            doc,
            crate::edit::next_char_target(doc, doc_chars(doc)[j].0),
        ) == doc_chars(doc)[j].0,
{
    let flat = doc_chars(doc);
    let n = flat.len() as int;
    let st = crate::edit::doc_starts(doc);
    let c = flat[j].0;
    assert(st.len() == n);
    assert forall|i: int| 0 <= i < n implies #[trigger] st[i] == flat[i].0 by {}
    let pn = crate::edit::start_is(st, c);
    lemma_first_index_props(n - 1, pn);
    if j < n - 1 {
        assert(pn(j));
        let m = first_index(n - 1, pn)->0;
        lemma_cell_cursor_unique(doc, m, j);
        let d = st[j + 1];
        let pp = crate::edit::next_start_is(st, d);
        lemma_first_index_props(n - 1, pp);
        assert(pp(j));
        let i = first_index(n - 1, pp)->0;
        lemma_cell_cursor_unique(doc, i + 1, j + 1);
    } else {
        assert forall|m: int| 0 <= m < n - 1 implies !#[trigger] pn(m) by {
            if st[m] == c {
                lemma_cell_cursor_unique(doc, m, j);
            }
        }
        assert(leaf_text(doc, c) matches Some(t) ==> utf8_len(t) <= usize::MAX);
        let (t, lc, k) = lemma_cell_leaf(doc, j);
        lemma_boundary_index(t, c.offset as int);
        let e = crate::edit::next_in_leaf(doc, c)->0;
        assert(crate::edit::next_char_target(doc, c) == e);
        lemma_cell_end(doc, j);
        assert(e == after_char(c, flat[j].1)) by {
            lemma_byte_offset_le_len(t, k);
            crate::text::lemma_byte_offset_step(t, k);
            lemma_byte_offset_le_len(t, k + 1);
        }
        let pp = crate::edit::next_start_is(st, e);
        lemma_first_index_props(n - 1, pp);
        assert forall|m: int| 0 <= m < n - 1 implies !#[trigger] pp(m) by {
            if st[m + 1] == e {
                assert(leaf_text(doc, e) matches Some(u) ==> utf8_len(u) <= usize::MAX);
                lemma_cell_leaf(doc, m + 1);
            }
        }
        let pl = crate::edit::start_precedes(st, e);
        lemma_byte_offset_le_len(t, k);
        crate::text::lemma_byte_offset_step(t, k);
        assert(crate::edit::cursor_lt(c, e));
        assert(pl(n - 1));
        crate::search::lemma_last_index_props(n, pl);
        assert(crate::search::last_index(n, pl) == Some(n - 1));
        // one char back from `e` in the leaf is `c`
        lemma_byte_offset_le_len(t, k + 1);
        crate::text::lemma_floor_char_index(t, e.offset - 1);
        let f = floor_char_index(t, e.offset - 1);
        if f < k {
            crate::text::lemma_byte_offset_strict_mono(t, f, k);
        } else if f > k + 1 {
            crate::text::lemma_byte_offset_strict_mono(t, k + 1, f);
        }
        assert(f == k);
        assert(crate::edit::prev_in_leaf(doc, e) == Some(c));
    }
}


/// Every text leaf reachable in `s` has a `usize` UTF-8 length.
pub open spec fn texts_fit(s: Seq<InlineView>) -> bool {
    forall|q: Seq<usize>| #[trigger] text_at(s, q) matches Some(t) ==> utf8_len(t) <= usize::MAX
}

/// Paths that agree up to `p` and then part at `x < y` are ordered.
proof fn lemma_path_lt_fork(p: Seq<usize>, x: usize, y: usize, u: Seq<usize>, v: Seq<usize>)
    requires
        x < y,
    ensures
        crate::edit::path_lt(p + seq![x] + u, p + seq![y] + v),
    decreases p.len(),
{
    let a = p + seq![x] + u;
    let b = p + seq![y] + v;
    if p.len() > 0 {
        assert(a.drop_first() =~= p.drop_first() + seq![x] + u);
        assert(b.drop_first() =~= p.drop_first() + seq![y] + v);
        lemma_path_lt_fork(p.drop_first(), x, y, u, v);
    }
}

/// The cells of the first `n` nodes of `s` lie under `prefix`, at one of
/// those nodes.
proof fn lemma_seq_cell_paths(bi: usize, prefix: Seq<usize>, s: Seq<InlineView>, n: int, k: int)
    requires
        inlines_fit(s),
        0 <= n <= s.len(),
        0 <= k < flatten_seq(bi, prefix, s, n).len(),
    ensures
        ({
            let path = flatten_seq(bi, prefix, s, n)[k].0.inline_path;
            &&& flatten_seq(bi, prefix, s, n)[k].0.block_index == bi
            &&& path.len() > prefix.len()
            &&& path == prefix + seq![path[prefix.len() as int]] + path.skip(prefix.len() as int + 1)
            &&& path[prefix.len() as int] < n
        }),
    decreases n,
{
    let a = flatten_seq(bi, prefix, s, n - 1);
    let i = n - 1;
    let path0 = prefix.push(i as usize);
    let b = flatten_node(bi, path0, s[i]);
    assert(flatten_seq(bi, prefix, s, n) == a + b);
    if k < a.len() {
        lemma_seq_cell_paths(bi, prefix, s, n - 1, k);
    } else {
        lemma_node_cell(bi, path0, s[i], k - a.len());
        let path = b[k - a.len()].0.inline_path;
        let pl = prefix.len() as int;
        assert(path.take(pl + 1) == path0);
        assert(path[pl] == path0[pl]);
        assert(path =~= prefix + seq![path[pl]] + path.skip(pl + 1)) by {
            assert(path.take(pl + 1) =~= path.take(pl) + seq![path[pl]]);
            assert(path.take(pl) =~= prefix);
            assert(path =~= path.take(pl + 1) + path.skip(pl + 1));
        }
    }
}

/// The cells of node `x` at `path0` come in strictly increasing document
/// order.
proof fn lemma_node_cells_sorted(bi: usize, path0: Seq<usize>, x: InlineView, a: int, b: int)
    requires
        node_fits(x),
        forall|q: Seq<usize>| #[trigger] node_leaf(x, q) matches Some(t) ==> utf8_len(t) <= usize::MAX,
        0 <= a < b < flatten_node(bi, path0, x).len(),
    ensures
        crate::edit::cursor_lt(flatten_node(bi, path0, x)[a].0, flatten_node(bi, path0, x)[b].0),
    decreases x, 0int,
{
    match x {
        InlineView::Text(t) => {
            assert(node_leaf(x, Seq::empty()) == Some(t));
            crate::text::lemma_byte_offset_strict_mono(t, a, b);
            lemma_byte_offset_le_len(t, b);
        },
        InlineView::Bold(v) => {
            assert forall|q: Seq<usize>| #[trigger] text_at(v, q) is Some implies utf8_len(text_at(v, q)->0) <= usize::MAX by {
                if q.len() > 0 {
                    assert(node_leaf(x, q) == text_at(v, q));
                }
            }
            lemma_seq_cells_sorted(bi, path0, v, v.len() as int, a, b);
        },
        InlineView::Italic(v) => {
            assert forall|q: Seq<usize>| #[trigger] text_at(v, q) is Some implies utf8_len(text_at(v, q)->0) <= usize::MAX by {
                if q.len() > 0 {
                    assert(node_leaf(x, q) == text_at(v, q));
                }
            }
            lemma_seq_cells_sorted(bi, path0, v, v.len() as int, a, b);
        },
        InlineView::Link { text, .. } => {
            assert forall|q: Seq<usize>| #[trigger] text_at(text, q) is Some implies utf8_len(text_at(text, q)->0) <= usize::MAX by {
                if q.len() > 0 {
                    assert(node_leaf(x, q) == text_at(text, q));
                }
            }
            lemma_seq_cells_sorted(bi, path0, text, text.len() as int, a, b);
        },
    }
}

proof fn lemma_seq_cells_sorted(bi: usize, prefix: Seq<usize>, s: Seq<InlineView>, n: int, a: int, b: int)
    requires
        inlines_fit(s),
        forall|q: Seq<usize>| #[trigger] text_at(s, q) matches Some(t) ==> utf8_len(t) <= usize::MAX,
        0 <= n <= s.len(),
        0 <= a < b < flatten_seq(bi, prefix, s, n).len(),
    ensures
        crate::edit::cursor_lt(flatten_seq(bi, prefix, s, n)[a].0, flatten_seq(bi, prefix, s, n)[b].0),
    decreases s, 1int, n,
{
    let fa = flatten_seq(bi, prefix, s, n - 1);
    let i = n - 1;
    let path0 = prefix.push(i as usize);
    let fb = flatten_node(bi, path0, s[i]);
    assert(flatten_seq(bi, prefix, s, n) == fa + fb);
    if b < fa.len() {
        lemma_seq_cells_sorted(bi, prefix, s, n - 1, a, b);
    } else if a >= fa.len() {
        assert(node_fits(s[i]));
        assert forall|q: Seq<usize>| #[trigger] node_leaf(s[i], q) is Some implies utf8_len(
            node_leaf(s[i], q)->0,
        ) <= usize::MAX by {
            let p = seq![i as usize] + q;
            assert(p.drop_first() =~= q);
            if q.len() == 0 {
                assert(text_at(s, p) == node_leaf(s[i], q));
            } else if children(s[i]) is Some {
                lemma_node_at_step(s, p);
                assert(text_at(s, p) == node_leaf(s[i], q));
            }
        }
        lemma_node_cells_sorted(bi, path0, s[i], a - fa.len(), b - fa.len());
    } else {
        lemma_seq_cell_paths(bi, prefix, s, n - 1, a);
        lemma_node_cell(bi, path0, s[i], b - fa.len());
        let pa = fa[a].0.inline_path;
        let pb = fb[b - fa.len()].0.inline_path;
        let pl = prefix.len() as int;
        assert(pb.take(pl + 1) == path0);
        assert(pb =~= prefix + seq![i as usize] + pb.skip(pl + 1)) by {
            assert(pb.take(pl + 1) =~= prefix + seq![i as usize]);
            assert(pb =~= pb.take(pl + 1) + pb.skip(pl + 1));
        }
        lemma_path_lt_fork(prefix, pa[pl], i as usize, pa.skip(pl + 1), pb.skip(pl + 1));
    }
}

/// The chars of a document in memory start at strictly increasing cursors
/// in document order (block, then path, then offset).
pub proof fn lemma_char_starts_increase(doc: DocumentView, a: int, b: int)
    requires
        doc_fits(doc),
        leaves_fit(doc),
        0 <= a < b < doc_chars(doc).len(),
    ensures
        crate::edit::cursor_lt(doc_chars(doc)[a].0, doc_chars(doc)[b].0),
{
    lemma_blocks_sorted(doc, doc.blocks.len() as int, a, b);
}

proof fn lemma_blocks_sorted(doc: DocumentView, n: int, a: int, b: int)
    requires
        doc_fits(doc),
        leaves_fit(doc),
        0 <= n <= doc.blocks.len(),
        0 <= a < b < flatten_blocks(doc.blocks, n).len(),
    ensures
        crate::edit::cursor_lt(flatten_blocks(doc.blocks, n)[a].0, flatten_blocks(doc.blocks, n)[b].0),
    decreases n,
{
    let blocks = doc.blocks;
    let fa = flatten_blocks(blocks, n - 1);
    let i = n - 1;
    let fb = flatten_block(i as usize, blocks[i]);
    assert(flatten_blocks(blocks, n) == fa + fb);
    if b < fa.len() {
        lemma_blocks_sorted(doc, n - 1, a, b);
    } else if a >= fa.len() {
        let a2 = a - fa.len();
        let b2 = b - fa.len();
        assert(block_fits(blocks[i]));
        match blocks[i] {
            BlockView::CodeBlock { text, .. } => {
                let c = CursorView { block_index: i as usize, inline_path: Seq::empty(), offset: 0 };
                assert(leaf_text(doc, c) == Some(text));
                crate::text::lemma_byte_offset_strict_mono(text, a2, b2);
                lemma_byte_offset_le_len(text, b2);
            },
            BlockView::Paragraph(il) => {
                assert forall|q: Seq<usize>| #[trigger] text_at(il, q) is Some implies utf8_len(
                    text_at(il, q)->0,
                ) <= usize::MAX by {
                    let c = CursorView { block_index: i as usize, inline_path: q, offset: 0 };
                    assert(leaf_text(doc, c) == text_at(il, q));
                }
                lemma_seq_cells_sorted(i as usize, Seq::empty(), il, il.len() as int, a2, b2);
            },
            BlockView::Heading { content, .. } => {
                assert forall|q: Seq<usize>| #[trigger] text_at(content, q) is Some implies utf8_len(
                    text_at(content, q)->0,
                ) <= usize::MAX by {
                    let c = CursorView { block_index: i as usize, inline_path: q, offset: 0 };
                    assert(leaf_text(doc, c) == text_at(content, q));
                }
                lemma_seq_cells_sorted(i as usize, Seq::empty(), content, content.len() as int, a2, b2);
            },
        }
    } else {
        lemma_blocks_cell(blocks, n - 1, a);
        let b2 = b - fa.len();
        assert(flatten_blocks(blocks, n)[b] == fb[b2]);
        assert(block_fits(blocks[i]));
        match blocks[i] {
            BlockView::CodeBlock { text, .. } => {
                assert(fb[b2].0.block_index == i);
            },
            BlockView::Paragraph(il) => {
                lemma_seq_cell_paths(i as usize, Seq::empty(), il, il.len() as int, b2);
            },
            BlockView::Heading { content, .. } => {
                lemma_seq_cell_paths(i as usize, Seq::empty(), content, content.len() as int, b2);
            },
        }
    }
}


/// Backspace through `reduce_edit` with a non-empty selection `lo..hi`
/// deletes exactly the chars with global indices `lo..hi`, leaves the caret
/// at gap `lo` and clears the selection; it fails, changing nothing, only
/// when `hi` lies past the last char.
pub proof fn lemma_reduce_delete_selection(doc: DocumentView, st: EditorStateView, lo: usize, hi: usize)
    requires
        take_range(with_cursor(st, normalized(st.cursor, doc))).0 == Some((lo, hi)),
        doc_fits(doc),
        leaves_fit(doc),
    ensures
        ({
            let r = reduce_edit_spec(doc, st, EditOpView::Backspace);
            &&& r.2 <==> hi <= doc_text(doc).len()
            &&& r.2 ==> {
                &&& doc_text(r.0) == doc_text(doc).take(lo as int) + doc_text(doc).skip(hi as int)
                &&& gap_index_of(r.0, r.1.cursor) == Some(lo as int)
                &&& r.1.selection is None
                &&& r.0.blocks.len() == doc.blocks.len()
            }
        }),
{
    let st1 = with_cursor(st, normalized(st.cursor, doc));
    let st2 = take_range(st1).1;
    lemma_delete_range_text(doc, st2, lo as int, hi as int);
    let d = crate::edit::delete_range_spec(doc, st2, lo as int, hi as int);
    let r = reduce_edit_spec(doc, st, EditOpView::Backspace);
    if d.2 {
        assert(r.0.blocks == d.0.blocks);
        assert(doc_chars(r.0) == doc_chars(d.0));
        assert(doc_text(r.0) == doc_text(d.0));
        assert(gap_index_of(r.0, r.1.cursor) == gap_index_of(d.0, d.1.cursor));
    }
}


/// After a bold or italic toggle that took place, the caret is at the start
/// of the empty text inside a new bold (or italic) node of the caret's
/// block, so what is typed next goes into that node; the block's chars
/// before the node are those that were before the caret, and the chars
/// after it are those that were after the caret.
pub proof fn lemma_toggle_caret_in_new_node(doc: DocumentView, st: EditorStateView, bold: bool)
    requires
        doc_fits(doc),
    ensures
        ({
            let r = toggle_spec(doc, st, bold);
            let c = normalized(st.cursor, doc);
            let nc = r.1.cursor;
            let bi = c.block_index as int;
            r.2 ==> {
                let il = block_inlines(doc.blocks[bi])->0;
                let il2 = block_inlines(r.0.blocks[bi])->0;
                let s = text_at(il, c.inline_path)->0;
                let k = char_index_at(s, c.offset as int);
                let m = nc.inline_path[0] as int;
                &&& 0 <= bi < doc.blocks.len() == r.0.blocks.len()
                &&& nc.block_index == c.block_index
                &&& nc.inline_path.len() == 2
                &&& nc.inline_path[1] == 0
                &&& nc.offset == 0
                &&& leaf_text(r.0, nc) == Some(Seq::<char>::empty())
                &&& 0 <= m < il2.len()
                &&& bold ==> il2[m] == InlineView::Bold(seq![InlineView::Text(Seq::empty())])
                &&& !bold ==> il2[m] == InlineView::Italic(seq![InlineView::Text(Seq::empty())])
                &&& inline_text(il2.take(m)) == inline_text(il.take(c.inline_path[0] as int)) + s.take(k)
                &&& inline_text(il2.skip(m + 1)) == s.skip(k) + inline_text(il.skip(c.inline_path[0] + 1))
            }
        }),
{
    let r = toggle_spec(doc, st, bold);
    let c = normalized(st.cursor, doc);
    let bi = c.block_index as int;
    if r.2 {
        let il = block_inlines(doc.blocks[bi])->0;
        let i = c.inline_path[0] as int;
        let s = il[i]->Text_0;
        assert(c.inline_path =~= seq![c.inline_path[0]]);
        assert(text_at(il, c.inline_path) == Some(s));
        let k = char_index_at(s, c.offset as int);
        let before = s.take(k);
        let after = s.skip(k);
        let pre: Seq<InlineView> = if before.len() > 0 {
            seq![InlineView::Text(before)]
        } else {
            Seq::empty()
        };
        let post: Seq<InlineView> = if after.len() > 0 {
            seq![InlineView::Text(after)]
        } else {
            Seq::empty()
        };
        let mid = toggle_mid(bold);
        let il2 = il.take(i) + (pre + seq![mid] + post) + il.skip(i + 1);
        assert(block_inlines(r.0.blocks[bi]) == Some(il2));
        let m = i + pre.len();
        assert(block_fits(doc.blocks[bi]));
        assert(il.len() <= usize::MAX);
        assert(r.1.cursor.inline_path[0] as int == m);
        assert(il2[m] == mid);
        assert(il2.take(m) =~= il.take(i) + pre);
        assert(il2.skip(m + 1) =~= post + il.skip(i + 1));
        lemma_inline_text_concat(il.take(i), pre);
        lemma_inline_text_concat(post, il.skip(i + 1));
        assert(inline_text(pre) == before) by {
            if before.len() > 0 {
                assert(pre.drop_last() =~= Seq::<InlineView>::empty());
                assert(node_text(pre.last()) == before);
                assert(inline_text(pre) == inline_text(pre.drop_last()) + node_text(pre.last()));
                assert(inline_text(pre) =~= before);
            } else {
                assert(before =~= Seq::<char>::empty());
            }
        }
        assert(inline_text(post) == after) by {
            if after.len() > 0 {
                assert(post.drop_last() =~= Seq::<InlineView>::empty());
                assert(node_text(post.last()) == after);
                assert(inline_text(post) == inline_text(post.drop_last()) + node_text(post.last()));
                assert(inline_text(post) =~= after);
            } else {
                assert(after =~= Seq::<char>::empty());
            }
        }
        let nc = r.1.cursor;
        let ch = children(mid)->0;
        assert(ch == seq![InlineView::Text(Seq::<char>::empty())]);
        assert(nc.inline_path.drop_first() =~= seq![0usize]);
        assert(node_at(ch, nc.inline_path.drop_first()) == Some(InlineView::Text(Seq::<char>::empty())));
        assert(node_at(il2, nc.inline_path) == Some(InlineView::Text(Seq::<char>::empty())));
    }
}


/// What is typed right after a bold or italic toggle that took place goes
/// into the new node: the node then holds just the typed char, and the rest
/// of the block is as the toggle left it.
pub proof fn lemma_typing_after_toggle(doc: DocumentView, st: EditorStateView, bold: bool, ch: char)
    requires
        doc_fits(doc),
    ensures
        ({
            let r = toggle_spec(doc, st, bold);
            let bi = normalized(st.cursor, doc).block_index as int;
            let m = r.1.cursor.inline_path[0] as int;
            let typed = insert_char_spec(r.0, r.1, ch);
            let il2 = block_inlines(r.0.blocks[bi])->0;
            r.2 ==> {
                &&& typed.2
                &&& block_inlines(typed.0.blocks[bi]) == Some(il2.update(
                    m,
                    if bold {
                        InlineView::Bold(seq![InlineView::Text(seq![ch])])
                    } else {
                        InlineView::Italic(seq![InlineView::Text(seq![ch])])
                    },
                ))
                &&& typed.0.blocks.len() == doc.blocks.len()
            }
        }),
{
    let r = toggle_spec(doc, st, bold);
    lemma_toggle_caret_in_new_node(doc, st, bold);
    if r.2 {
        let bi = normalized(st.cursor, doc).block_index as int;
        let nc = r.1.cursor;
        let m = nc.inline_path[0] as int;
        let il2 = block_inlines(r.0.blocks[bi])->0;
        let mid = il2[m];
        let v = children(mid)->0;
        let e = Seq::<char>::empty();
        assert(v == seq![InlineView::Text(e)]);
        assert(nc.inline_path =~= seq![m as usize, 0usize]);
        assert(top_level_path(nc.inline_path, il2.len()) == nc.inline_path);
        assert(nc.inline_path.drop_first() =~= seq![0usize]);
        assert(seq![0usize].drop_first() =~= Seq::<usize>::empty());
        assert(snap_text_offset(e, 0) == 0) by {
            assert(utf8_len(e) == 0);
        }
        assert(normalize_below(v, seq![0usize], 0) == (seq![0usize], 0usize));
        assert(seq![m as usize] + seq![0usize] =~= nc.inline_path);
        assert(normalize_below(il2, nc.inline_path, 0) == (nc.inline_path, 0usize));
        assert(normalized(nc, r.0) == nc);
        assert(char_index_at(e, 0) == 0);
        assert(e.insert(0, ch) =~= seq![ch]);
        let t2 = with_text_at(v, seq![0usize], seq![ch]);
        assert(t2 =~= seq![InlineView::Text(seq![ch])]);
        assert(with_text_at(il2, nc.inline_path, seq![ch]) =~= il2.update(m, with_children(mid, t2)));
    }
}

} // verus!
