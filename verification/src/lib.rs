//! Disk usage of a file-system subtree as a sorted, size-annotated tree,
//! laid out for a terminal of a given width.
//!
//! The library works on a snapshot of the subtree ([`FsNode`]), which the
//! caller reads from the file system. Under the settings of a run
//! ([`Config`]) it builds the tree of entries to show ([`Entry`]): filtered,
//! limited in depth, small entries aggregated, siblings by descending size.
//! It renders the tree as lines of text ([`run`]): each entry with its
//! branch, its name cut to its column, a bar for its share of the levels
//! above it, and its size.
//!
//! Every function is verified against its contract. The contracts are
//! stated over plain values: an entry is spoken of by its view
//! ([`entry::EntryView`]), a tree by [`Entry::tree_of`], the lines by
//! [`render::rendering`]. What holds of every tree is proved in [`laws`].
//! Taken on trust is what the Unicode tables say of a name, its grapheme
//! clusters and the columns that each takes, see [`unicode`]; and that
//! `String::push` appends a character, see [`text`].

pub mod bar;
pub mod color;
pub mod column;
pub mod config;
pub mod entry;
pub mod laws;
pub mod node;
pub mod render;
pub mod size;
pub mod sort;
pub mod text;
pub mod unicode;

pub use color::{color_from_path, create_color_dict, ColorDict};
pub use config::{CmdLine, Config, OptArg, PathArg, XResult};
pub use entry::Entry;
pub use node::{
    checked_bytes, file_name_from_path, get_bytes, try_bytes_from_path, try_is_symlink, FileName,
    FsNode, Metadata,
};
pub use render::{run, try_run};
pub use size::fmt_size_str;
