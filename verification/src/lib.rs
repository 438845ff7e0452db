//! Tyrannus: document model, editing, layout, and viewport cache.

pub mod arrow_laws;
pub mod commands;
pub mod config;
pub mod config_laws;
pub mod cursor;
pub mod document;
pub mod edit;
pub mod edit_laws;
pub mod key_laws;
pub mod render;
pub mod layout;
pub mod layout_laws;
pub mod panels;
pub mod plain_text_laws;
pub mod search;
pub mod session;
pub mod strings;
pub mod text;
pub mod theme_presets;
pub mod viewport;

pub use cursor::Cursor;
pub use document::{Block, Document, Inline};
pub use edit::{
    apply_cursor_move, apply_cursor_move_in_layout, cursor_to_gap_index, document_char_count,
    gap_index_to_cursor, reduce, reduce_edit, selection_ordered, CursorMove, EditOp, EditorState,
    Mode, Selection,
};
pub use layout::{
    advance_cursor_after_char, cursor_from_row_col, cursor_to_row_col, flatten_document_chars,
    layout_document, LaidCell, LaidOutDocument, LayoutConfig,
};
pub use viewport::{
    clamp_scroll, merge_regions, schedule_render, scroll_to_reveal_row, viewport_line_range,
    LayoutCache, LayoutMemoryStats, RenderScheduler, RenderTask, Viewport,
};
