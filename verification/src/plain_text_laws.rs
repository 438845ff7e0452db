//! What the plain text of a document holds: every root-level text node of
//! a paragraph or heading, in order, and a code block's text.

use vstd::prelude::*;

use crate::commands::{block_text, plain_text, root_text};
use crate::document::{BlockView, DocumentView, InlineView};
use crate::edit::{merge_spec, EditorStateView};
use crate::edit_laws::{block_chars, inline_text, node_text};
use crate::strings::joined;

verus! {

/// Every node of `il` is a text node.
pub open spec fn all_text_nodes(il: Seq<InlineView>) -> bool {
    forall|i: int| 0 <= i < il.len() ==> #[trigger] il[i] is Text
}

/// A paragraph or heading whose nodes are all text, or a code block.
pub open spec fn flat_block(b: BlockView) -> bool {
    match b {
        BlockView::Paragraph(il) => all_text_nodes(il),
        BlockView::Heading { content, .. } => all_text_nodes(content),
        BlockView::CodeBlock { .. } => true,
    }
}

/// The root-level text of two runs of nodes, one after the other, is the
/// text of the first followed by the text of the second: no node is left
/// out, whatever its place.
pub proof fn lemma_root_text_concat(a: Seq<InlineView>, b: Seq<InlineView>)
    ensures
        root_text(a + b) == root_text(a) + root_text(b),
    decreases b.len(),
{
    if b.len() == 0 {
        assert(a + b =~= a);
        assert(root_text(a) + root_text(b) =~= root_text(a));
    } else {
        lemma_root_text_concat(a, b.drop_last());
        assert((a + b).drop_last() =~= a + b.drop_last());
        assert((a + b).last() == b.last());
        let t = match b.last() {
            InlineView::Text(s) => s,
            _ => Seq::empty(),
        };
        assert(root_text(a) + root_text(b.drop_last()) + t =~= root_text(a) + (root_text(b.drop_last())
            + t));
    }
}

/// When every node is a text node, the root-level text is all of the
/// nodes' chars, in order.
pub proof fn lemma_root_text_of_text_nodes(il: Seq<InlineView>)
    requires
        all_text_nodes(il),
    ensures
        root_text(il) == inline_text(il),
    decreases il.len(),
{
    if il.len() > 0 {
        let pre = il.drop_last();
        assert forall|i: int| 0 <= i < pre.len() implies #[trigger] pre[i] is Text by {
            assert(pre[i] == il[i]);
        }
        lemma_root_text_of_text_nodes(pre);
        assert(il.last() == il[il.len() - 1]);
        assert(il[il.len() - 1] is Text);
        match il.last() {
            InlineView::Text(s) => {
                assert(root_text(il) == root_text(pre) + s);
                assert(node_text(il.last()) == s);
                assert(inline_text(il) == inline_text(il.drop_last()) + node_text(il.last()));
            },
            _ => {},
        }
    }
}

/// A flat block's plain text is all of its chars.
pub proof fn lemma_flat_block_text(b: BlockView)
    requires
        flat_block(b),
    ensures
        block_text(b) == block_chars(b),
{
    match b {
        BlockView::Paragraph(il) => lemma_root_text_of_text_nodes(il),
        BlockView::Heading { content, .. } => lemma_root_text_of_text_nodes(content),
        BlockView::CodeBlock { .. } => {},
    }
}

/// The plain text of a document of flat blocks is the chars of each block,
/// one block per line.
pub proof fn lemma_plain_text_of_flat_document(doc: DocumentView)
    requires
        forall|i: int| 0 <= i < doc.blocks.len() ==> #[trigger] flat_block(doc.blocks[i]),
    ensures
        plain_text(doc) == joined(
            Seq::new(doc.blocks.len(), |i: int| block_chars(doc.blocks[i])),
            seq!['\n'],
        ),
{
    assert forall|i: int| 0 <= i < doc.blocks.len() implies block_text(doc.blocks[i]) == block_chars(
        doc.blocks[i],
    ) by {
        lemma_flat_block_text(doc.blocks[i]);
    }
    assert(Seq::new(doc.blocks.len(), |i: int| block_text(doc.blocks[i])) =~= Seq::new(
        doc.blocks.len(),
        |i: int| block_chars(doc.blocks[i]),
    ));
}


/// Joining two non-empty runs of parts puts one separator between them.
pub proof fn lemma_joined_concat(a: Seq<Seq<char>>, b: Seq<Seq<char>>, sep: Seq<char>)
    requires
        a.len() > 0,
        b.len() > 0,
    ensures
        joined(a + b, sep) == joined(a, sep) + sep + joined(b, sep),
    decreases b.len(),
{
    let ab = a + b;
    assert(ab.last() == b.last());
    if b.len() == 1 {
        assert(ab.drop_last() =~= a);
        assert(b.last() == b[0]);
    } else {
        lemma_joined_concat(a, b.drop_last(), sep);
        assert(ab.drop_last() =~= a + b.drop_last());
        assert(joined(a, sep) + sep + joined(b.drop_last(), sep) + sep + b.last() =~= joined(a, sep) + sep
            + (joined(b.drop_last(), sep) + sep + b.last()));
    }
}

proof fn lemma_joined_fuse(a: Seq<Seq<char>>, x: Seq<char>, y: Seq<char>, b: Seq<Seq<char>>, sep: Seq<char>)
    ensures
        joined(a + seq![x + y] + b, sep) == joined(a + seq![x], sep) + joined(seq![y] + b, sep),
{
    let xy = seq![x + y];
    assert(joined(xy, sep) == x + y);
    assert(joined(seq![x], sep) == x);
    assert(joined(seq![y], sep) == y);
    if a.len() > 0 {
        lemma_joined_concat(a, seq![x], sep);
    } else {
        assert(a + seq![x] =~= seq![x]);
    }
    if b.len() > 0 {
        lemma_joined_concat(seq![y], b, sep);
    } else {
        assert(seq![y] + b =~= seq![y]);
    }
    if a.len() > 0 && b.len() > 0 {
        lemma_joined_concat(a, xy + b, sep);
        lemma_joined_concat(xy, b, sep);
        assert(a + xy + b =~= a + (xy + b));
        assert(joined(a, sep) + sep + (x + y + sep + joined(b, sep)) =~= joined(a, sep) + sep + x + (y + sep
            + joined(b, sep)));
    } else if a.len() > 0 {
        assert(a + xy + b =~= a + xy);
        lemma_joined_concat(a, xy, sep);
        assert(joined(a, sep) + sep + (x + y) =~= joined(a, sep) + sep + x + y);
    } else if b.len() > 0 {
        assert(a + xy + b =~= xy + b);
        lemma_joined_concat(xy, b, sep);
        assert(x + y + sep + joined(b, sep) =~= x + (y + sep + joined(b, sep)));
    } else {
        assert(a + xy + b =~= xy);
    }
}

/// Joining a paragraph into the one before it (Backspace at a line's
/// start) removes exactly the line break between their texts from the
/// plain text: every node's text on both lines is kept.
pub proof fn lemma_merge_plain_text(doc: DocumentView, st: EditorStateView)
    ensures
        ({
            let r = merge_spec(doc, st);
            let bi = st.cursor.block_index as int;
            let parts = Seq::new(doc.blocks.len(), |i: int| block_text(doc.blocks[i]));
            let before = joined(parts.take(bi), seq!['\n']);
            let after = joined(parts.skip(bi), seq!['\n']);
            r.2 ==> plain_text(doc) == before + seq!['\n'] + after && plain_text(r.0) == before + after
        }),
{
    let r = merge_spec(doc, st);
    let bi = st.cursor.block_index as int;
    let sep = seq!['\n'];
    let parts = Seq::new(doc.blocks.len(), |i: int| block_text(doc.blocks[i]));
    if r.2 {
        assert(0 < bi < doc.blocks.len());
        let a = doc.blocks[bi - 1]->Paragraph_0;
        let b = doc.blocks[bi]->Paragraph_0;
        lemma_root_text_concat(a, b);
        assert(parts.take(bi) + parts.skip(bi) =~= parts);
        lemma_joined_concat(parts.take(bi), parts.skip(bi), sep);
        let d2 = r.0;
        let parts2 = Seq::new(d2.blocks.len(), |i: int| block_text(d2.blocks[i]));
        let pre = parts.take(bi - 1);
        let post = parts.skip(bi + 1);
        assert(parts2 =~= pre + seq![parts[bi - 1] + parts[bi]] + post);
        lemma_joined_fuse(pre, parts[bi - 1], parts[bi], post, sep);
        assert(pre + seq![parts[bi - 1]] =~= parts.take(bi));
        assert(seq![parts[bi]] + post =~= parts.skip(bi));
    }
}

} // verus!
