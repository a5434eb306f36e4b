//! A fuzzy-finder's preview pipeline: a bounded FIFO ring-set, bounded
//! key-value caches built on it, a command-template formatter, a non-blocking
//! preview scheduler, and a parser turning ANSI-escaped byte streams into
//! styled text.

pub mod action;
pub mod ansi;
pub mod channel;
pub mod channels;
pub mod config;
pub mod entry;
pub mod event;
pub mod formatter;
pub mod input;
pub mod layout;
pub mod logger;
pub mod picker;
pub mod previewer;
pub mod ringset;
pub mod strings;
pub mod style;
pub mod tui;
pub mod utils;
