//! Editor front-end decisions: overlays, the command palette, key remaps,
//! plain-text documents, and new-document names.

use vstd::prelude::*;

use crate::document::{Block, BlockView, Document, DocumentView, Inline, InlineView};
use crate::edit::{
    apply_cursor_move_in_layout, cursor_to_gap_index, gap_index_of, with_cursor, CursorMove,
    EditorState, EditorStateView, Selection,
};
use crate::layout::{laid_fits, layout_move_target, LaidOutDocument, LineView};
use crate::search::{first_index, lemma_first_index_extends, lemma_first_index_props};
use crate::strings::{ascii_lowered, chars_are, joined, lower_chars, string_of_chars, trim_chars, trimmed};
use crate::text::text_chars;

verus! {

#[derive(Clone, Copy, Debug, PartialEq, Eq)]
pub enum OverlayMode {
    NoOverlay,
    CommandPalette,
    Menu,
    RecentDocuments,
    WritingFolder,
    NewDocumentFilename,
    Configuration,
    Help,
}

/// Status-line name of an overlay.
pub open spec fn mode_name(mode: OverlayMode) -> Seq<char> {
    match mode {
        OverlayMode::NoOverlay => "editor"@,
        OverlayMode::CommandPalette => "palette"@,
        OverlayMode::Menu => "menu"@,
        OverlayMode::RecentDocuments => "recent-docs"@,
        OverlayMode::WritingFolder => "writing-folder"@,
        OverlayMode::NewDocumentFilename => "new-document-filename"@,
        OverlayMode::Configuration => "config"@,
        OverlayMode::Help => "help"@,
    }
}

pub fn overlay_mode_name(mode: OverlayMode) -> (n: &'static str)
    ensures
        n@ == mode_name(mode),
{
    match mode {
        OverlayMode::NoOverlay => "editor",
        OverlayMode::CommandPalette => "palette",
        OverlayMode::Menu => "menu",
        OverlayMode::RecentDocuments => "recent-docs",
        OverlayMode::WritingFolder => "writing-folder",
        OverlayMode::NewDocumentFilename => "new-document-filename",
        OverlayMode::Configuration => "config",
        OverlayMode::Help => "help",
    }
}

#[derive(Clone, Debug)]
pub struct UiState {
    pub overlay: OverlayMode,
    pub new_document_filename_input: String,
    pub palette_query: String,
    pub palette_selected: usize,
    pub menu_selected: usize,
    pub list_selected: usize,
    pub start_menu_title_lines: Vec<String>,
    /// True when mouse capture succeeded at startup.
    pub mouse_enabled: bool,
    /// Toggles verbose diagnostic status details.
    pub status_details: bool,
    /// Hides bordered frame, title, and status line (toggle with Ctrl+K).
    pub chrome_hidden: bool,
    /// Save result dialog content; painted above menu or editor until dismissed (Esc / Enter).
    pub save_feedback: Option<String>,
}

impl Default for UiState {
    fn default() -> (u: Self)
        ensures
            u.overlay == OverlayMode::Menu,
            u.new_document_filename_input@.len() == 0,
            u.palette_query@.len() == 0,
            u.palette_selected == 0,
            u.menu_selected == 0,
            u.list_selected == 0,
            u.start_menu_title_lines@.len() == 0,
            u.mouse_enabled,
            !u.status_details,
            !u.chrome_hidden,
            u.save_feedback is None,
    {
        Self {
            overlay: OverlayMode::Menu,
            new_document_filename_input: String::new(),
            palette_query: String::new(),
            palette_selected: 0,
            menu_selected: 0,
            list_selected: 0,
            start_menu_title_lines: Vec::new(),
            mouse_enabled: true,
            status_details: false,
            chrome_hidden: false,
            save_feedback: None,
        }
    }
}

#[derive(Clone, Copy, Debug, PartialEq, Eq)]
pub enum AppCommand {
    NewDocument,
    RecentDocuments,
    WritingFolder,
    Configuration,
    ShowHelp,
    Save,
}

#[derive(Clone, Copy, Debug, PartialEq, Eq)]
pub enum RemapAction {
    Quit,
    ToggleChromeHidden,
    ToggleStatusDetails,
    OpenPalette,
    OpenMenu,
    OpenHelp,
    Command(AppCommand),
}

/// The palette's commands with their titles, in menu order.
pub open spec fn command_list() -> Seq<(Seq<char>, AppCommand)> {
    seq![
        ("New Document"@, AppCommand::NewDocument),
        ("Recent Documents"@, AppCommand::RecentDocuments),
        ("Writing folder"@, AppCommand::WritingFolder),
        ("Configuration"@, AppCommand::Configuration),
        ("Show Help"@, AppCommand::ShowHelp),
        ("Save"@, AppCommand::Save),
    ]
}

pub open spec fn items_view(v: Seq<(&'static str, AppCommand)>) -> Seq<(Seq<char>, AppCommand)> {
    Seq::new(v.len(), |i: int| (v[i].0@, v[i].1))
}

pub fn command_items() -> (items: Vec<(&'static str, AppCommand)>)
    ensures
        items_view(items@) == command_list(),
{
    let items = vec![
        ("New Document", AppCommand::NewDocument),
        ("Recent Documents", AppCommand::RecentDocuments),
        ("Writing folder", AppCommand::WritingFolder),
        ("Configuration", AppCommand::Configuration),
        ("Show Help", AppCommand::ShowHelp),
        ("Save", AppCommand::Save),
    ];
    assert(items_view(items@) =~= command_list());
    items
}

/// Index predicate: `needle` occurs in `hay` at `i`.
pub open spec fn occurs_at(hay: Seq<char>, needle: Seq<char>) -> spec_fn(int) -> bool {
    |i: int| hay.subrange(i, i + needle.len()) == needle
}

/// `needle` occurs in `hay`.
pub open spec fn contains_chars(hay: Seq<char>, needle: Seq<char>) -> bool {
    first_index(hay.len() - needle.len() + 1, occurs_at(hay, needle)) is Some
}

/// Whether `needle` occurs in `hay`.
pub fn chars_contain(hay: &Vec<char>, needle: &Vec<char>) -> (r: bool)
    ensures
        r == contains_chars(hay@, needle@),
{
    let ghost p = occurs_at(hay@, needle@);
    if needle.len() > hay.len() {
        return false;
    }
    let last = hay.len() - needle.len();
    let mut i: usize = 0;
    while i <= last
        invariant
            last == hay@.len() - needle@.len(),
            i <= last + 1,
            p == occurs_at(hay@, needle@),
            first_index(i as int, p) is None,
        decreases last + 1 - i,
    {
        let mut j: usize = 0;
        let mut same = true;
        assert(hay@.len() == hay.len());
        while j < needle.len()
            invariant
                i <= last,
                last + needle@.len() == hay@.len(),
                hay@.len() <= usize::MAX,
                j <= needle@.len(),
                same == (forall|k: int| 0 <= k < j ==> hay@[i + k] == needle@[k]),
            decreases needle@.len() - j,
        {
            if hay[i + j] != needle[j] {
                same = false;
            }
            j = j + 1;
        }
        assert(same == (hay@.subrange(i as int, i + needle@.len()) == needle@)) by {
            if same {
                assert(hay@.subrange(i as int, i + needle@.len()) =~= needle@);
            } else {
                if hay@.subrange(i as int, i + needle@.len()) == needle@ {
                    assert forall|k: int| 0 <= k < needle@.len() implies hay@[i + k] == needle@[k] by {
                        assert(hay@.subrange(i as int, i + needle@.len())[k] == hay@[i + k]);
                    }
                }
            }
        }
        if same {
            assert(first_index(i + 1, p) == Some(i as int));
            proof {
                lemma_first_index_extends(i + 1, last + 1, p);
            }
            return true;
        }
        if i == last {
            return false;
        }
        i = i + 1;
    }
    false
}

/// The palette items that a query keeps: those whose title holds the query,
/// both in ASCII lower case; every item when the query is empty.
pub open spec fn palette_keep(items: Seq<(Seq<char>, AppCommand)>, q: Seq<char>) -> Seq<
    (Seq<char>, AppCommand),
>
    decreases items.len(),
{
    if items.len() == 0 {
        items
    } else {
        let rest = palette_keep(items.drop_last(), q);
        if q.len() == 0 || contains_chars(ascii_lowered(items.last().0), q) {
            rest.push(items.last())
        } else {
            rest
        }
    }
}

pub fn filtered_palette_items(query: &str) -> (items: Vec<(&'static str, AppCommand)>)
    ensures
        items_view(items@) == palette_keep(command_list(), ascii_lowered(query@)),
{
    let qc = text_chars(query);
    let q = lower_chars(&qc);
    let all = command_items();
    let mut out: Vec<(&'static str, AppCommand)> = Vec::new();
    let mut i: usize = 0;
    assert(items_view(all@).take(0) =~= Seq::<(Seq<char>, AppCommand)>::empty());
    while i < all.len()
        invariant
            i <= all@.len(),
            items_view(all@) == command_list(),
            q@ == ascii_lowered(query@),
            items_view(out@) == palette_keep(items_view(all@).take(i as int), q@),
        decreases all@.len() - i,
    {
        let (name, cmd) = all[i];
        let ghost pre = items_view(all@).take(i as int);
        let ghost cur = items_view(all@).take(i + 1);
        assert(cur.drop_last() =~= pre);
        assert(cur.last() == (name@, cmd));
        let nc = text_chars(name);
        let nl = lower_chars(&nc);
        if q.len() == 0 || chars_contain(&nl, &q) {
            out.push((name, cmd));
            assert(items_view(out@) =~= palette_keep(pre, q@).push((name@, cmd)));
        }
        i = i + 1;
    }
    assert(items_view(all@).take(i as int) =~= items_view(all@));
    out
}

/// The action a keymap name stands for.
pub open spec fn action_named(name: Seq<char>) -> Option<RemapAction> {
    if name == "quit"@ {
        Some(RemapAction::Quit)
    } else if name == "open_palette"@ {
        Some(RemapAction::OpenPalette)
    } else if name == "open_menu"@ {
        Some(RemapAction::OpenMenu)
    } else if name == "open_help"@ {
        Some(RemapAction::OpenHelp)
    } else if name == "toggle_chrome_hidden"@ {
        Some(RemapAction::ToggleChromeHidden)
    } else if name == "toggle_status_details"@ {
        Some(RemapAction::ToggleStatusDetails)
    } else if name == "new_document"@ {
        Some(RemapAction::Command(AppCommand::NewDocument))
    } else if name == "recent_documents"@ {
        Some(RemapAction::Command(AppCommand::RecentDocuments))
    } else if name == "writing_folder"@ || name == "document_browser"@ {
        Some(RemapAction::Command(AppCommand::WritingFolder))
    } else if name == "configuration"@ {
        Some(RemapAction::Command(AppCommand::Configuration))
    } else if name == "save"@ {
        Some(RemapAction::Command(AppCommand::Save))
    } else {
        None
    }
}

pub fn remap_action_from_name(name: &str) -> (a: Option<RemapAction>)
    ensures
        a == action_named(name@),
{
    let n = text_chars(name);
    if chars_are(&n, "quit") {
        Some(RemapAction::Quit)
    } else if chars_are(&n, "open_palette") {
        Some(RemapAction::OpenPalette)
    } else if chars_are(&n, "open_menu") {
        Some(RemapAction::OpenMenu)
    } else if chars_are(&n, "open_help") {
        Some(RemapAction::OpenHelp)
    } else if chars_are(&n, "toggle_chrome_hidden") {
        Some(RemapAction::ToggleChromeHidden)
    } else if chars_are(&n, "toggle_status_details") {
        Some(RemapAction::ToggleStatusDetails)
    } else if chars_are(&n, "new_document") {
        Some(RemapAction::Command(AppCommand::NewDocument))
    } else if chars_are(&n, "recent_documents") {
        Some(RemapAction::Command(AppCommand::RecentDocuments))
    } else if chars_are(&n, "writing_folder") || chars_are(&n, "document_browser") {
        Some(RemapAction::Command(AppCommand::WritingFolder))
    } else if chars_are(&n, "configuration") {
        Some(RemapAction::Command(AppCommand::Configuration))
    } else if chars_are(&n, "save") {
        Some(RemapAction::Command(AppCommand::Save))
    } else {
        None
    }
}

/// The pieces of `t` between `\n`s (one empty piece for empty text).
pub open spec fn lines_of(t: Seq<char>) -> Seq<Seq<char>>
    decreases t.len(),
{
    if t.len() == 0 {
        seq![Seq::empty()]
    } else {
        let w = lines_of(t.drop_last());
        if t.last() == '\n' {
            w.push(Seq::empty())
        } else {
            w.update(w.len() - 1, w.last().push(t.last()))
        }
    }
}

/// The text of root-level text nodes of `il`, in order.
pub open spec fn root_text(il: Seq<InlineView>) -> Seq<char>
    decreases il.len(),
{
    if il.len() == 0 {
        Seq::empty()
    } else {
        root_text(il.drop_last()) + match il.last() {
            InlineView::Text(s) => s,
            _ => Seq::empty(),
        }
    }
}

/// Plain text of a block: its root-level text, or a code block's text.
pub open spec fn block_text(b: BlockView) -> Seq<char> {
    match b {
        BlockView::Paragraph(il) => root_text(il),
        BlockView::Heading { content, .. } => root_text(content),
        BlockView::CodeBlock { text, .. } => text,
    }
}

/// Plain text of a document: its blocks' texts, one per line.
pub open spec fn plain_text(doc: DocumentView) -> Seq<char> {
    joined(Seq::new(doc.blocks.len(), |i: int| block_text(doc.blocks[i])), seq!['\n'])
}

/// The document of plain text `t`: a paragraph with one text node per line.
pub open spec fn text_document(t: Seq<char>) -> DocumentView {
    DocumentView {
        blocks: Seq::new(
            lines_of(t).len(),
            |i: int| BlockView::Paragraph(seq![InlineView::Text(lines_of(t)[i])]),
        ),
        generation: 0,
    }
}

proof fn lemma_lines_of_nonempty(t: Seq<char>)
    ensures
        lines_of(t).len() >= 1,
    decreases t.len(),
{
    if t.len() > 0 {
        lemma_lines_of_nonempty(t.drop_last());
    }
}

proof fn lemma_joined_lines(t: Seq<char>)
    ensures
        joined(lines_of(t), seq!['\n']) == t,
    decreases t.len(),
{
    if t.len() == 0 {
        assert(lines_of(t) =~= seq![Seq::<char>::empty()]);
        assert(t =~= Seq::<char>::empty());
    } else {
        let w = lines_of(t.drop_last());
        lemma_joined_lines(t.drop_last());
        lemma_lines_of_nonempty(t.drop_last());
        if t.last() == '\n' {
            let u = w.push(Seq::<char>::empty());
            assert(u.drop_last() =~= w);
            assert(joined(u, seq!['\n']) =~= t.drop_last() + seq!['\n'] + Seq::<char>::empty());
            assert(t.drop_last() + seq!['\n'] + Seq::<char>::empty() =~= t);
        } else {
            let u = w.update(w.len() - 1, w.last().push(t.last()));
            if w.len() > 1 {
                assert(u.drop_last() =~= w.drop_last());
                assert(joined(u, seq!['\n']) =~= joined(w, seq!['\n']).push(t.last()));
            } else {
                assert(joined(u, seq!['\n']) == u[0]);
                assert(joined(w, seq!['\n']) == w[0]);
            }
            assert(t.drop_last().push(t.last()) =~= t);
        }
    }
}

/// Saving a document made from plain text gives back that text.
pub proof fn lemma_plain_text_roundtrip(t: Seq<char>)
    ensures
        plain_text(text_document(t)) == t,
{
    let d = text_document(t);
    let parts = Seq::new(d.blocks.len(), |i: int| block_text(d.blocks[i]));
    assert forall|i: int| 0 <= i < parts.len() implies parts[i] == lines_of(t)[i] by {
        let il = seq![InlineView::Text(lines_of(t)[i])];
        assert(il.drop_last() =~= Seq::<InlineView>::empty());
        assert(root_text(Seq::<InlineView>::empty()) == Seq::<char>::empty());
        assert(il.last() == InlineView::Text(lines_of(t)[i]));
        assert(root_text(il) =~= lines_of(t)[i]);
    }
    assert(parts =~= lines_of(t));
    lemma_joined_lines(t);
}

fn paragraph_of(line: &Vec<char>) -> (b: Block)
    ensures
        b@ == BlockView::Paragraph(seq![InlineView::Text(line@)]),
{
    let s = string_of_chars(line);
    let il = vec![Inline::Text(s)];
    let b = Block::Paragraph(il);
    assert(crate::document::inlines_view(il@) =~= seq![InlineView::Text(line@)]);
    b
}

/// A document with one paragraph per line of `text`.
pub fn plain_text_to_document(text: &str) -> (d: Document)
    ensures
        d@ == text_document(text@),
{
    let chars = text_chars(text);
    let mut blocks: Vec<Block> = Vec::new();
    let mut cur: Vec<char> = Vec::new();
    let ghost mut done: Seq<Seq<char>> = Seq::empty();
    let mut i: usize = 0;
    assert(chars@.take(0) =~= Seq::<char>::empty());
    assert(lines_of(Seq::<char>::empty()) =~= seq![Seq::<char>::empty()]);
    while i < chars.len()
        invariant
            i <= chars@.len(),
            chars@ == text@,
            lines_of(chars@.take(i as int)) == done.push(cur@),
            blocks@.len() == done.len(),
            forall|k: int| 0 <= k < blocks@.len() ==> #[trigger] blocks@[k]@ == BlockView::Paragraph(
                seq![InlineView::Text(done[k])],
            ),
        decreases chars@.len() - i,
    {
        let c = chars[i];
        let ghost pre = chars@.take(i as int);
        let ghost next = chars@.take(i + 1);
        assert(next.drop_last() =~= pre);
        assert(next.last() == c);
        if c == '\n' {
            let b = paragraph_of(&cur);
            blocks.push(b);
            proof {
                done = done.push(cur@);
            }
            cur = Vec::new();
            assert(lines_of(next) =~= done.push(cur@));
        } else {
            cur.push(c);
            assert(lines_of(next) =~= done.push(cur@));
        }
        i = i + 1;
    }
    let b = paragraph_of(&cur);
    blocks.push(b);
    proof {
        done = done.push(cur@);
    }
    assert(chars@.take(i as int) =~= text@);
    assert(done == lines_of(text@));
    let d = Document::with_blocks(blocks);
    assert forall|k: int| 0 <= k < d@.blocks.len() implies d@.blocks[k] == text_document(text@).blocks[k] by {
        assert(d@.blocks[k] == blocks@[k]@);
    }
    assert(d@.blocks =~= text_document(text@).blocks);
    d
}

fn append_root_text(out: &mut Vec<char>, il: &Vec<Inline>)
    ensures
        final(out)@ == old(out)@ + root_text(crate::document::inlines_view(il@)),
{
    let ghost v = crate::document::inlines_view(il@);
    let mut j: usize = 0;
    assert(v.take(0) =~= Seq::<InlineView>::empty());
    assert(old(out)@ + root_text(Seq::<InlineView>::empty()) =~= old(out)@);
    while j < il.len()
        invariant
            j <= il@.len(),
            v == crate::document::inlines_view(il@),
            out@ == old(out)@ + root_text(v.take(j as int)),
        decreases il@.len() - j,
    {
        assert(v.take(j + 1).drop_last() =~= v.take(j as int));
        assert(v.take(j + 1).last() == il@[j as int]@);
        if let Inline::Text(s) = &il[j] {
            let cs = text_chars(s.as_str());
            let mut k: usize = 0;
            let ghost base = out@;
            while k < cs.len()
                invariant
                    k <= cs@.len(),
                    out@ == base + cs@.take(k as int),
                decreases cs@.len() - k,
            {
                out.push(cs[k]);
                assert(out@ =~= base + cs@.take(k + 1));
                k = k + 1;
            }
            assert(cs@.take(k as int) =~= cs@);
            assert(out@ =~= old(out)@ + root_text(v.take(j + 1)));
        } else {
            assert(out@ =~= old(out)@ + root_text(v.take(j + 1)));
        }
        j = j + 1;
    }
    assert(v.take(j as int) =~= v);
}

fn append_chars(out: &mut Vec<char>, s: &str)
    ensures
        final(out)@ == old(out)@ + s@,
{
    let cs = text_chars(s);
    let mut k: usize = 0;
    while k < cs.len()
        invariant
            k <= cs@.len(),
            cs@ == s@,
            out@ == old(out)@ + cs@.take(k as int),
        decreases cs@.len() - k,
    {
        out.push(cs[k]);
        assert(out@ =~= old(out)@ + cs@.take(k + 1));
        k = k + 1;
    }
    assert(cs@.take(k as int) =~= cs@);
}

/// The plain text of `doc`: root-level text of each paragraph and heading,
/// or a code block's text, one block per line.
pub fn document_to_plain_text(doc: &Document) -> (t: String)
    ensures
        t@ == plain_text(doc@),
{
    let ghost parts = Seq::new(doc@.blocks.len(), |i: int| block_text(doc@.blocks[i]));
    let mut out: Vec<char> = Vec::new();
    let mut i: usize = 0;
    assert(parts.take(0) =~= Seq::<Seq<char>>::empty());
    while i < doc.blocks.len()
        invariant
            i <= doc.blocks@.len(),
            parts == Seq::new(doc@.blocks.len(), |i: int| block_text(doc@.blocks[i])),
            out@ == joined(parts.take(i as int), seq!['\n']),
        decreases doc.blocks@.len() - i,
    {
        let ghost before = out@;
        if i > 0 {
            out.push('\n');
        }
        match &doc.blocks[i] {
            Block::Paragraph(il) => append_root_text(&mut out, il),
            Block::Heading { content, .. } => append_root_text(&mut out, content),
            Block::CodeBlock { text, .. } => append_chars(&mut out, text.as_str()),
        }
        proof {
            assert(parts[i as int] == block_text(doc.blocks@[i as int]@));
            assert(parts.take(i + 1).drop_last() =~= parts.take(i as int));
            if i == 0 {
                assert(out@ =~= joined(parts.take(1), seq!['\n']));
            } else {
                assert(out@ =~= before + seq!['\n'] + parts[i as int]);
            }
        }
        i = i + 1;
    }
    assert(parts.take(i as int) =~= parts);
    string_of_chars(&out)
}

/// Whether `v` holds `c`.
pub fn chars_have(v: &Vec<char>, c: char) -> (r: bool)
    ensures
        r == v@.contains(c),
{
    let mut i: usize = 0;
    while i < v.len()
        invariant
            i <= v@.len(),
            forall|k: int| 0 <= k < i ==> v@[k] != c,
        decreases v@.len() - i,
    {
        if v[i] == c {
            assert(v@[i as int] == c);
            return true;
        }
        i = i + 1;
    }
    false
}

/// A start-menu title name: non-empty, not `.` or `..`, and without slashes.
pub open spec fn title_name_ok(name: Seq<char>) -> bool {
    &&& name.len() > 0
    &&& !name.contains('/')
    &&& !name.contains('\\')
    &&& name != "."@
    &&& name != ".."@
}

pub fn is_valid_title_name(name: &str) -> (ok: bool)
    ensures
        ok == title_name_ok(name@),
{
    let n = text_chars(name);
    n.len() > 0 && !chars_have(&n, '/') && !chars_have(&n, '\\') && !chars_are(&n, ".") && !chars_are(
        &n,
        "..",
    )
}

/// Index predicate: char `i` of `s` is `c`.
pub open spec fn char_is(s: Seq<char>, c: char) -> spec_fn(int) -> bool {
    |i: int| s[i] == c
}

/// The extension of file name `name`: what follows its last `.`, unless
/// there is none or the only one starts the name.
pub open spec fn extension_of(name: Seq<char>) -> Option<Seq<char>> {
    match crate::search::last_index(name.len() as int, char_is(name, '.')) {
        None => None,
        Some(k) => if k == 0 {
            None
        } else {
            Some(name.skip(k + 1))
        },
    }
}

/// The basename that a new-document name becomes: trimmed, `.md` added
/// when it has no extension; only `.md`, `.txt` and `.toml` (any case) are
/// allowed, and paths, `.`/`..`, NUL and names over 256 chars are refused.
pub open spec fn new_basename(raw: Seq<char>) -> Result<Seq<char>, Seq<char>> {
    let t = trimmed(raw);
    if t.len() == 0 {
        Err("Filename cannot be empty."@)
    } else if t == "."@ || t == ".."@ {
        Err("Invalid filename."@)
    } else if t.len() > 256 {
        Err("Filename is too long (max 256 characters)."@)
    } else if t.contains('/') || t.contains('\\') {
        Err("Use a basename only, not a path."@)
    } else if t.contains('\0') {
        Err("Invalid filename."@)
    } else {
        match extension_of(t) {
            None => Ok(t + ".md"@),
            Some(ext) => if ext.len() == 0 {
                Err("Invalid extension."@)
            } else {
                let el = ascii_lowered(ext);
                if el == "md"@ || el == "txt"@ || el == "toml"@ {
                    Ok(t)
                } else {
                    Err("Extension ."@ + ext + " not allowed \u{2014} use .md, .txt, or .toml."@)
                }
            },
        }
    }
}

/// Basename plus extension rules for a new document under the Writing
/// folder: `.md` when omitted; only `.md` / `.txt` / `.toml` allowed otherwise.
pub fn finalize_new_document_basename(raw_input: &str) -> (r: Result<String, String>)
    ensures
        match new_basename(raw_input@) {
            Ok(b) => r matches Ok(x) && x@ == b,
            Err(m) => r matches Err(x) && x@ == m,
        },
{
    let v = text_chars(raw_input);
    let t = trim_chars(&v);
    if t.len() == 0 {
        return Err("Filename cannot be empty.".to_string());
    }
    if chars_are(&t, ".") || chars_are(&t, "..") {
        return Err("Invalid filename.".to_string());
    }
    if t.len() > 256 {
        return Err("Filename is too long (max 256 characters).".to_string());
    }
    if chars_have(&t, '/') || chars_have(&t, '\\') {
        return Err("Use a basename only, not a path.".to_string());
    }
    if chars_have(&t, '\0') {
        return Err("Invalid filename.".to_string());
    }
    let trimmed_name = string_of_chars(&t);
    let ghost p = char_is(t@, '.');
    let mut k: usize = t.len();
    while k > 0 && t[k - 1] != '.'
        invariant
            k <= t@.len(),
            p == char_is(t@, '.'),
            forall|j: int| k <= j < t@.len() ==> !#[trigger] p(j),
        decreases k,
    {
        k = k - 1;
    }
    proof {
        crate::search::lemma_last_index_props(t@.len() as int, p);
        if k > 0 {
            assert(p(k - 1));
            lemma_last_at(t@.len() as int, p, k - 1);
        }
    }
    if k <= 1 {
        let mut name = trimmed_name;
        name.append(".md");
        return Ok(name);
    }
    let mut ext: Vec<char> = Vec::new();
    let mut i: usize = k;
    while i < t.len()
        invariant
            k <= i <= t@.len(),
            ext@ == t@.subrange(k as int, i as int),
        decreases t@.len() - i,
    {
        ext.push(t[i]);
        assert(ext@ =~= t@.subrange(k as int, i + 1));
        i = i + 1;
    }
    assert(ext@ =~= t@.skip(k as int));
    if ext.len() == 0 {
        return Err("Invalid extension.".to_string());
    }
    let el = lower_chars(&ext);
    if chars_are(&el, "md") || chars_are(&el, "txt") || chars_are(&el, "toml") {
        Ok(trimmed_name)
    } else {
        let mut m = "Extension .".to_string();
        let es = string_of_chars(&ext);
        m.append(es.as_str());
        m.append(" not allowed \u{2014} use .md, .txt, or .toml.");
        Err(m)
    }
}

proof fn lemma_last_at(n: int, p: spec_fn(int) -> bool, j: int)
    requires
        0 <= j < n,
        p(j),
        forall|k: int| j < k < n ==> !#[trigger] p(k),
    ensures
        crate::search::last_index(n, p) == Some(j),
    decreases n,
{
    if n - 1 > j {
        lemma_last_at(n - 1, p, j);
    }
}

/// A key that a binding names.
#[derive(Clone, Copy, Debug, PartialEq, Eq, Structural)]
pub enum KeyName {
    Esc,
    Enter,
    Backspace,
    Tab,
    BackTab,
    Up,
    Down,
    Left,
    Right,
    Home,
    End,
    PageUp,
    PageDown,
    F(u8),
    Char(char),
}

/// A key with the modifiers held with it.
#[derive(Clone, Copy, Debug, PartialEq, Eq, Structural)]
pub struct KeyBinding {
    pub code: KeyName,
    pub ctrl: bool,
    pub shift: bool,
    pub alt: bool,
}

/// The pieces of `t` between occurrences of `sep` (one empty piece for empty text).
pub open spec fn pieces(t: Seq<char>, sep: char) -> Seq<Seq<char>>
    decreases t.len(),
{
    if t.len() == 0 {
        seq![Seq::empty()]
    } else {
        let w = pieces(t.drop_last(), sep);
        if t.last() == sep {
            w.push(Seq::empty())
        } else {
            w.update(w.len() - 1, w.last().push(t.last()))
        }
    }
}

/// What one `+`-separated token of a binding means.
pub enum TokenMeaning {
    Skip,
    Ctrl,
    Shift,
    Alt,
    Code(KeyName),
    Invalid,
}

/// The meaning of token `tok` (already trimmed and in ASCII lower case).
pub open spec fn token_meaning(tok: Seq<char>) -> TokenMeaning {
    if tok.len() == 0 {
        TokenMeaning::Skip
    } else if tok == "ctrl"@ || tok == "control"@ {
        TokenMeaning::Ctrl
    } else if tok == "shift"@ {
        TokenMeaning::Shift
    } else if tok == "alt"@ {
        TokenMeaning::Alt
    } else if tok == "esc"@ || tok == "escape"@ {
        TokenMeaning::Code(KeyName::Esc)
    } else if tok == "enter"@ || tok == "return"@ {
        TokenMeaning::Code(KeyName::Enter)
    } else if tok == "backspace"@ {
        TokenMeaning::Code(KeyName::Backspace)
    } else if tok == "space"@ {
        TokenMeaning::Code(KeyName::Char(' '))
    } else if tok == "tab"@ {
        TokenMeaning::Code(KeyName::Tab)
    } else if tok == "backtab"@ {
        TokenMeaning::Code(KeyName::BackTab)
    } else if tok == "up"@ {
        TokenMeaning::Code(KeyName::Up)
    } else if tok == "down"@ {
        TokenMeaning::Code(KeyName::Down)
    } else if tok == "left"@ {
        TokenMeaning::Code(KeyName::Left)
    } else if tok == "right"@ {
        TokenMeaning::Code(KeyName::Right)
    } else if tok == "home"@ {
        TokenMeaning::Code(KeyName::Home)
    } else if tok == "end"@ {
        TokenMeaning::Code(KeyName::End)
    } else if tok == "pageup"@ || tok == "pgup"@ {
        TokenMeaning::Code(KeyName::PageUp)
    } else if tok == "pagedown"@ || tok == "pgdown"@ {
        TokenMeaning::Code(KeyName::PageDown)
    } else if tok == "f1"@ {
        TokenMeaning::Code(KeyName::F(1))
    } else if tok == "f2"@ {
        TokenMeaning::Code(KeyName::F(2))
    } else if tok.len() == 1 && (tok[0] as u32) < 0x80 {
        TokenMeaning::Code(KeyName::Char(tok[0]))
    } else {
        TokenMeaning::Invalid
    }
}

/// A binding's pieces read in order: modifiers accumulate, the last key
/// named wins; an unknown token or no key at all is an error.
pub open spec fn read_tokens(
    toks: Seq<Seq<char>>,
    code: Option<KeyName>,
    ctrl: bool,
    shift: bool,
    alt: bool,
    raw: Seq<char>,
) -> Result<KeyBinding, Seq<char>>
    decreases toks.len(),
{
    if toks.len() == 0 {
        match code {
            Some(c) => Ok(KeyBinding { code: c, ctrl, shift, alt }),
            None => Err("missing key code in binding `"@ + raw + "`"@),
        }
    } else {
        let tok = ascii_lowered(trimmed(toks[0]));
        let rest = toks.drop_first();
        match token_meaning(tok) {
            TokenMeaning::Skip => read_tokens(rest, code, ctrl, shift, alt, raw),
            TokenMeaning::Ctrl => read_tokens(rest, code, true, shift, alt, raw),
            TokenMeaning::Shift => read_tokens(rest, code, ctrl, true, alt, raw),
            TokenMeaning::Alt => read_tokens(rest, code, ctrl, shift, true, raw),
            TokenMeaning::Code(k) => read_tokens(rest, Some(k), ctrl, shift, alt, raw),
            TokenMeaning::Invalid => Err(
                "invalid key token `"@ + tok + "` in key binding `"@ + raw + "`"@,
            ),
        }
    }
}

/// The binding that `raw` spells, such as `ctrl+shift+space`.
pub open spec fn key_binding_of(raw: Seq<char>) -> Result<KeyBinding, Seq<char>> {
    read_tokens(pieces(raw, '+'), None, false, false, false, raw)
}

/// The pieces of `raw` between `sep`s.
pub(crate) fn split_chars(raw: &Vec<char>, sep: char) -> (ps: Vec<Vec<char>>)
    ensures
        ps@.len() == pieces(raw@, sep).len(),
        forall|i: int| 0 <= i < ps@.len() ==> #[trigger] ps@[i]@ == pieces(raw@, sep)[i],
{
    let mut ps: Vec<Vec<char>> = Vec::new();
    let mut cur: Vec<char> = Vec::new();
    let ghost mut done: Seq<Seq<char>> = Seq::empty();
    let mut i: usize = 0;
    assert(raw@.take(0) =~= Seq::<char>::empty());
    assert(pieces(Seq::<char>::empty(), sep) =~= seq![Seq::<char>::empty()]);
    while i < raw.len()
        invariant
            i <= raw@.len(),
            pieces(raw@.take(i as int), sep) == done.push(cur@),
            ps@.len() == done.len(),
            forall|k: int| 0 <= k < ps@.len() ==> #[trigger] ps@[k]@ == done[k],
        decreases raw@.len() - i,
    {
        let c = raw[i];
        let ghost pre = raw@.take(i as int);
        let ghost next = raw@.take(i + 1);
        assert(next.drop_last() =~= pre);
        assert(next.last() == c);
        if c == sep {
            let piece = cur;
            proof {
                done = done.push(piece@);
            }
            ps.push(piece);
            cur = Vec::new();
            assert(pieces(next, sep) =~= done.push(cur@));
        } else {
            cur.push(c);
            assert(pieces(next, sep) =~= done.push(cur@));
        }
        i = i + 1;
    }
    proof {
        done = done.push(cur@);
    }
    ps.push(cur);
    assert(raw@.take(i as int) =~= raw@);
    ps
}

fn token_meaning_of(tok: &Vec<char>) -> (m: TokenMeaning)
    ensures
        m == token_meaning(tok@),
{
    if tok.len() == 0 {
        TokenMeaning::Skip
    } else if chars_are(tok, "ctrl") || chars_are(tok, "control") {
        TokenMeaning::Ctrl
    } else if chars_are(tok, "shift") {
        TokenMeaning::Shift
    } else if chars_are(tok, "alt") {
        TokenMeaning::Alt
    } else if chars_are(tok, "esc") || chars_are(tok, "escape") {
        TokenMeaning::Code(KeyName::Esc)
    } else if chars_are(tok, "enter") || chars_are(tok, "return") {
        TokenMeaning::Code(KeyName::Enter)
    } else if chars_are(tok, "backspace") {
        TokenMeaning::Code(KeyName::Backspace)
    } else if chars_are(tok, "space") {
        TokenMeaning::Code(KeyName::Char(' '))
    } else if chars_are(tok, "tab") {
        TokenMeaning::Code(KeyName::Tab)
    } else if chars_are(tok, "backtab") {
        TokenMeaning::Code(KeyName::BackTab)
    } else if chars_are(tok, "up") {
        TokenMeaning::Code(KeyName::Up)
    } else if chars_are(tok, "down") {
        TokenMeaning::Code(KeyName::Down)
    } else if chars_are(tok, "left") {
        TokenMeaning::Code(KeyName::Left)
    } else if chars_are(tok, "right") {
        TokenMeaning::Code(KeyName::Right)
    } else if chars_are(tok, "home") {
        TokenMeaning::Code(KeyName::Home)
    } else if chars_are(tok, "end") {
        TokenMeaning::Code(KeyName::End)
    } else if chars_are(tok, "pageup") || chars_are(tok, "pgup") {
        TokenMeaning::Code(KeyName::PageUp)
    } else if chars_are(tok, "pagedown") || chars_are(tok, "pgdown") {
        TokenMeaning::Code(KeyName::PageDown)
    } else if chars_are(tok, "f1") {
        TokenMeaning::Code(KeyName::F(1))
    } else if chars_are(tok, "f2") {
        TokenMeaning::Code(KeyName::F(2))
    } else if tok.len() == 1 && (tok[0] as u32) < 0x80 {
        TokenMeaning::Code(KeyName::Char(tok[0]))
    } else {
        TokenMeaning::Invalid
    }
}

pub fn parse_key_binding(raw: &str) -> (r: Result<KeyBinding, String>)
    ensures
        match key_binding_of(raw@) {
            Ok(b) => r == Ok::<KeyBinding, String>(b),
            Err(m) => r matches Err(x) && x@ == m,
        },
{
    let rc = text_chars(raw);
    let ps = split_chars(&rc, '+');
    let ghost toks = pieces(raw@, '+');
    let ghost target = key_binding_of(raw@);
    let mut code: Option<KeyName> = None;
    let mut ctrl = false;
    let mut shift = false;
    let mut alt = false;
    let mut i: usize = 0;
    assert(toks.skip(0) =~= toks);
    while i < ps.len()
        invariant
            i <= ps@.len(),
            ps@.len() == toks.len(),
            toks == pieces(raw@, '+'),
            forall|k: int| 0 <= k < ps@.len() ==> #[trigger] ps@[k]@ == toks[k],
            target == key_binding_of(raw@),
            read_tokens(toks.skip(i as int), code, ctrl, shift, alt, raw@) == target,
        decreases ps@.len() - i,
    {
        let t = trim_chars(&ps[i]);
        let tok = lower_chars(&t);
        assert(toks.skip(i as int)[0] == toks[i as int]);
        assert(toks.skip(i as int).drop_first() =~= toks.skip(i + 1));
        match token_meaning_of(&tok) {
            TokenMeaning::Skip => {},
            TokenMeaning::Ctrl => {
                ctrl = true;
            },
            TokenMeaning::Shift => {
                shift = true;
            },
            TokenMeaning::Alt => {
                alt = true;
            },
            TokenMeaning::Code(k) => {
                code = Some(k);
            },
            TokenMeaning::Invalid => {
                let mut m = "invalid key token `".to_string();
                let ts = string_of_chars(&tok);
                m.append(ts.as_str());
                m.append("` in key binding `");
                m.append(raw);
                m.append("`");
                return Err(m);
            },
        }
        i = i + 1;
    }
    assert(toks.skip(i as int) =~= Seq::<Seq<char>>::empty());
    match code {
        Some(c) => Ok(KeyBinding { code: c, ctrl, shift, alt }),
        None => {
            let mut m = "missing key code in binding `".to_string();
            m.append(raw);
            m.append("`");
            Err(m)
        },
    }
}

/// The remaps of a keymap, as `(binding, action)` pairs in keymap order.
#[derive(Clone, Debug, Default)]
pub struct RuntimeKeymap {
    pub bindings: Vec<(KeyBinding, RemapAction)>,
}

/// Index predicate: remap `k` of `acc` is for binding `b`.
pub open spec fn bound_to(acc: Seq<(KeyBinding, RemapAction)>, b: KeyBinding) -> spec_fn(int) -> bool {
    |k: int| acc[k].0 == b
}

/// Remaps `acc`, then those of the keymap entries `entries` in order: each
/// name must be an action, each binding must parse, and no binding may be
/// taken twice.
pub open spec fn runtime_remaps(
    entries: Seq<(Seq<char>, Seq<char>)>,
    acc: Seq<(KeyBinding, RemapAction)>,
) -> Result<Seq<(KeyBinding, RemapAction)>, Seq<char>>
    decreases entries.len(),
{
    if entries.len() == 0 {
        Ok(acc)
    } else {
        let name = entries[0].0;
        let raw = entries[0].1;
        match action_named(name) {
            None => Err("unknown keymap action `"@ + name + "`"@),
            Some(a) => match key_binding_of(raw) {
                Err(m) => Err(m),
                Ok(b) => if first_index(acc.len() as int, bound_to(acc, b)) is Some {
                    Err("duplicate key binding `"@ + raw + "` in [keymap]"@)
                } else {
                    runtime_remaps(entries.drop_first(), acc.push((b, a)))
                },
            },
        }
    }
}

fn find_binding(acc: &Vec<(KeyBinding, RemapAction)>, b: KeyBinding) -> (r: Option<usize>)
    ensures
        first_index(acc@.len() as int, bound_to(acc@, b)) == match r {
            Some(k) => Some(k as int),
            None => None::<int>,
        },
        r matches Some(k) ==> k < acc@.len(),
{
    let ghost p = bound_to(acc@, b);
    let mut k: usize = 0;
    while k < acc.len()
        invariant
            k <= acc@.len(),
            p == bound_to(acc@, b),
            first_index(k as int, p) is None,
        decreases acc@.len() - k,
    {
        if acc[k].0 == b {
            assert(first_index(k + 1, p) == Some(k as int));
            proof {
                lemma_first_index_extends(k + 1, acc@.len() as int, p);
            }
            return Some(k);
        }
        k = k + 1;
    }
    None
}

/// The remaps that the configured keymap asks for.
pub fn parse_runtime_keymap(app_config: &crate::config::AppConfig) -> (r: Result<RuntimeKeymap, String>)
    ensures
        match runtime_remaps(app_config.keymap@, Seq::empty()) {
            Ok(v) => r matches Ok(m) && m.bindings@ == v,
            Err(e) => r matches Err(x) && x@ == e,
        },
{
    let bindings = &app_config.keymap.bindings;
    let ghost ev = app_config.keymap@;
    let ghost target = runtime_remaps(ev, Seq::empty());
    let mut map = RuntimeKeymap { bindings: Vec::new() };
    let mut i: usize = 0;
    assert(ev.skip(0) =~= ev);
    while i < bindings.len()
        invariant
            i <= bindings@.len(),
            ev == app_config.keymap@,
            ev == crate::config::bindings_view(bindings@),
            target == runtime_remaps(ev, Seq::empty()),
            runtime_remaps(ev.skip(i as int), map.bindings@) == target,
        decreases bindings@.len() - i,
    {
        let name = bindings[i].0.as_str();
        let raw_binding = bindings[i].1.as_str();
        assert(ev.skip(i as int)[0] == (name@, raw_binding@));
        assert(ev.skip(i as int).drop_first() =~= ev.skip(i + 1));
        let action = match remap_action_from_name(name) {
            Some(a) => a,
            None => {
                let mut m = "unknown keymap action `".to_string();
                m.append(name);
                m.append("`");
                return Err(m);
            },
        };
        let binding = parse_key_binding(raw_binding)?;
        if find_binding(&map.bindings, binding).is_some() {
            let mut m = "duplicate key binding `".to_string();
            m.append(raw_binding);
            m.append("` in [keymap]");
            return Err(m);
        }
        map.bindings.push((binding, action));
        i = i + 1;
    }
    assert(ev.skip(i as int) =~= Seq::<(Seq<char>, Seq<char>)>::empty());
    Ok(map)
}

/// The action remapped to key `key`: that of the first remap for it.
pub fn lookup_remap_action(runtime_keymap: &RuntimeKeymap, key: KeyBinding) -> (r: Option<RemapAction>)
    ensures
        match first_index(runtime_keymap.bindings@.len() as int, bound_to(runtime_keymap.bindings@, key)) {
            Some(k) => r == Some(runtime_keymap.bindings@[k].1),
            None => r is None,
        },
{
    match find_binding(&runtime_keymap.bindings, key) {
        Some(k) => Some(runtime_keymap.bindings[k].1),
        None => None,
    }
}

/// F1, Ctrl+H, or Ctrl+Backspace (common terminals map Ctrl+H to the backspace key).
pub fn key_opens_help(key: KeyBinding) -> (r: bool)
    ensures
        r == (key.code == KeyName::F(1) || (key.ctrl && (key.code == KeyName::Char('h')
            || key.code == KeyName::Backspace))),
{
    key.code == KeyName::F(1) || (key.ctrl && (key.code == KeyName::Char('h') || key.code
        == KeyName::Backspace))
}

/// The editor state after move `m` over the layout `lines` of `doc`: without
/// `extend` the selection is dropped; with it the selection's head follows
/// the caret, starting a selection at the old caret when there was none.
pub open spec fn moved_with_selection(
    doc: DocumentView,
    lines: Seq<LineView>,
    st: EditorStateView,
    m: CursorMove,
    extend: bool,
) -> EditorStateView {
    let og = gap_index_of(doc, st.cursor);
    let st1 = if extend {
        st
    } else {
        EditorStateView { selection: None, ..st }
    };
    let st2 = with_cursor(st1, layout_move_target(doc, lines, st.cursor, m));
    if extend && og is Some && gap_index_of(doc, st2.cursor) is Some {
        let o = og->0 as usize;
        let n = gap_index_of(doc, st2.cursor)->0 as usize;
        match st2.selection {
            Some(sel) => EditorStateView { selection: Some(Selection { anchor: sel.anchor, head: n }), ..st2 },
            None => EditorStateView { selection: Some(Selection { anchor: o, head: n }), ..st2 },
        }
    } else {
        st2
    }
}

/// Moves the caret by `m` over `laid`, extending the selection when `extend`.
pub fn apply_move_with_selection(
    doc: &Document,
    laid: &LaidOutDocument,
    state: &mut EditorState,
    m: CursorMove,
    extend: bool,
)
    requires
        laid_fits(laid@),
    ensures
        final(state)@ == moved_with_selection(doc@, laid@, old(state)@, m, extend),
{
    let old_gap = cursor_to_gap_index(doc, &state.cursor);
    if !extend {
        state.selection = None;
    }
    apply_cursor_move_in_layout(doc, laid, state, m);
    if extend {
        if let Some(og) = old_gap {
            if let Some(ng) = cursor_to_gap_index(doc, &state.cursor) {
                match state.selection {
                    Some(sel) => {
                        state.selection = Some(Selection { anchor: sel.anchor, head: ng });
                    },
                    None => {
                        state.selection = Some(Selection { anchor: og, head: ng });
                    },
                }
            }
        }
    }
}

} // verus!
