//! Wallpaper rotation over a live index of image files, filtered by a
//! runtime-adjustable selection of folder prefixes.
mod text;
mod order;
mod selection;
mod index;
mod watcher;
mod rotation;
mod config;
mod commands;
mod folders;

pub use text::{is_blank, normalize_path, split_lines, starts_with, trim, LineSplitter};
pub use selection::{lemma_append_idempotent, lemma_merge_unique, FolderSelection};
pub use index::{ImageIndex, lemma_insert_adds_one_candidate};
pub use watcher::{handle_event, looks_like_image, WatchEvent};
pub use rotation::{begin_tick, settle_candidate, TickAction, INTERVAL_SECS};
pub use config::{initial_selection, selection_from_json, selection_to_json, ConfigError};
pub use commands::{append_query, parse_command, InputAction};
pub use folders::{folders_from_listing, folders_from_search};
