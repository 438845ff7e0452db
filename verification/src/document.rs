//! Block AST and inline tree, with their mathematical models.

use vstd::prelude::*;

verus! {

pub type InlineVec = Vec<Inline>;

#[derive(Debug, PartialEq, Eq)]
pub enum Inline {
    Text(String),
    Bold(InlineVec),
    Italic(InlineVec),
    Link { text: InlineVec, url: String },
}

#[derive(Debug, PartialEq, Eq)]
pub enum Block {
    Paragraph(InlineVec),
    Heading { level: u8, content: InlineVec },
    CodeBlock { lang: Option<String>, text: String },
}

#[derive(Debug, PartialEq, Eq)]
pub struct Document {
    pub blocks: Vec<Block>,
    /// Bumps on every structural/text mutation; drives layout cache invalidation.
    pub generation: u64,
}

/// Model of an inline node: strings are their char sequences.
#[verifier::ext_equal]
pub enum InlineView {
    Text(Seq<char>),
    Bold(Seq<InlineView>),
    Italic(Seq<InlineView>),
    Link { text: Seq<InlineView>, url: Seq<char> },
}

/// Model of a block.
#[verifier::ext_equal]
pub enum BlockView {
    Paragraph(Seq<InlineView>),
    Heading { level: u8, content: Seq<InlineView> },
    CodeBlock { lang: Option<Seq<char>>, text: Seq<char> },
}

/// Model of a document.
#[verifier::ext_equal]
pub struct DocumentView {
    pub blocks: Seq<BlockView>,
    pub generation: u64,
}

pub open spec fn inline_view(x: Inline) -> InlineView
    decreases x,
{
    match x {
        Inline::Text(s) => InlineView::Text(s@),
        Inline::Bold(v) => InlineView::Bold(inlines_view(v@)),
        Inline::Italic(v) => InlineView::Italic(inlines_view(v@)),
        Inline::Link { text, url } => InlineView::Link { text: inlines_view(text@), url: url@ },
    }
}

pub open spec fn inlines_view(s: Seq<Inline>) -> Seq<InlineView>
    decreases s,
{
    Seq::new(
        s.len(),
        |i: int|
            if 0 <= i < s.len() {
                inline_view(s[i])
            } else {
                InlineView::Text(Seq::empty())
            },
    )
}

pub open spec fn block_view(b: Block) -> BlockView {
    match b {
        Block::Paragraph(v) => BlockView::Paragraph(inlines_view(v@)),
        Block::Heading { level, content } => BlockView::Heading {
            level,
            content: inlines_view(content@),
        },
        Block::CodeBlock { lang, text } => BlockView::CodeBlock {
            lang: match lang {
                Some(l) => Some(l@),
                None => None,
            },
            text: text@,
        },
    }
}

pub open spec fn blocks_view(s: Seq<Block>) -> Seq<BlockView> {
    Seq::new(s.len(), |i: int| block_view(s[i]))
}

impl View for Inline {
    type V = InlineView;

    open spec fn view(&self) -> InlineView {
        inline_view(*self)
    }
}

impl View for Block {
    type V = BlockView;

    open spec fn view(&self) -> BlockView {
        block_view(*self)
    }
}

impl View for Document {
    type V = DocumentView;

    open spec fn view(&self) -> DocumentView {
        DocumentView { blocks: blocks_view(self.blocks@), generation: self.generation }
    }
}

/// The paragraph holding a single empty text leaf.
pub open spec fn empty_paragraph() -> BlockView {
    BlockView::Paragraph(seq![InlineView::Text(Seq::empty())])
}

/// Generation after one bump: wraps to 0 after `u64::MAX`.
pub open spec fn next_generation(g: u64) -> u64 {
    if g == u64::MAX {
        0
    } else {
        (g + 1) as u64
    }
}

impl Inline {
    pub fn text_str(s: &str) -> (r: Self)
        ensures
            r@ == InlineView::Text(s@),
    {
        Inline::Text(s.to_owned())
    }

    /// Single empty text node (valid leaf for cursor).
    pub fn empty_text() -> (r: Self)
        ensures
            r@ == InlineView::Text(Seq::empty()),
    {
        Inline::Text(String::new())
    }
}

impl Document {
    pub fn new() -> (d: Self)
        ensures
            d@.blocks == seq![empty_paragraph()],
            d@.generation == 0,
    {
        let mut il: Vec<Inline> = Vec::new();
        il.push(Inline::empty_text());
        assert(inlines_view(il@) =~= seq![InlineView::Text(Seq::empty())]);
        let mut blocks: Vec<Block> = Vec::new();
        blocks.push(Block::Paragraph(il));
        let d = Document { blocks, generation: 0 };
        assert(d@.blocks =~= seq![empty_paragraph()]);
        d
    }

    pub fn with_blocks(blocks: Vec<Block>) -> (d: Self)
        ensures
            d@.blocks == blocks_view(blocks@),
            d@.generation == 0,
    {
        Document { blocks, generation: 0 }
    }

    #[inline]
    pub fn bump_generation(&mut self)
        ensures
            final(self).blocks == old(self).blocks,
            final(self).generation == next_generation(old(self).generation),
    {
        if self.generation == u64::MAX {
            self.generation = 0;
        } else {
            self.generation = self.generation + 1;
        }
    }
}

impl Default for Document {
    fn default() -> (d: Self)
        ensures
            d@.blocks == seq![empty_paragraph()],
            d@.generation == 0,
    {
        Self::new()
    }
}

} // verus!
