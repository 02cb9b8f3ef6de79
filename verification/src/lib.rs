//! An ANSI-escape-aware text engine: it measures and rewrites text that mixes
//! printable characters with ANSI/VT100 escape sequences, so that padding,
//! truncation and indentation act on the *visible* width of the text rather
//! than its raw byte count, and so that open styles are not corrupted when
//! synthetic line breaks are inserted.
//!
//! The heart of the crate is a two-state scanner (outside or inside an escape
//! span) specified in [`ansi`] and shared by every component: the width
//! measures, the visible-character iterator in [`vis`], the style-tracking
//! pass-through writer in [`ansi::writer`], and the padding and truncation
//! algorithms built on top of them.

pub mod ansi;
pub mod bytebuf;
pub mod dedent;
pub mod error;
pub mod indent;
pub mod padding;
pub mod text;
pub mod truncate;
pub mod vis;

pub use error::Error;
