//! A modal text editor core: a rope-backed text buffer with cursor and
//! selection, a per-line syntax style cache, a modal key dispatcher, the
//! coordination state of background requests, and the geometry of a
//! soft-wrapped, diff-rendered terminal view.

pub mod text;
pub mod syntax;
pub mod error;
pub mod filepicker;
pub mod menu;
pub mod chat;
pub mod async_handler;
pub mod editor;
pub mod render;
pub mod highlight;
pub mod popup;
