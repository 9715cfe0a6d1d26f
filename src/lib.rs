//! Rendering of a directory listing as a text tree.
//!
//! The walk of the file system is left to the caller; this library decides
//! which entries are shown, orders them, and draws the branch glyphs.

pub mod entry;
pub mod filter;
pub mod laws;
pub mod listing;
pub mod render;
pub mod tree;

pub use entry::{chars_equal, Entry};
pub use filter::{
    extension_allowed, extension_of, is_ignored, is_ignored_name, is_visible, should_include,
    DisplayOptions,
};
pub use render::{format_entry, is_last_sibling};
pub use listing::{collect_listing, compare_paths, compare_text};
pub use tree::{display_tree, render_lines};
pub use laws::{
    lemma_allow_list_files, lemma_ancestor_columns, lemma_branch_dashes, lemma_directories_kept,
    lemma_folders_only_slashes, lemma_indent_columns, lemma_line_count, lemma_listing_members,
    lemma_skipped_dirs_hidden,
};
