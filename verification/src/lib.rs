//! Verified core of a chat-group keyword-reply assistant.
//!
//! The library covers the message-ingestion and command-dispatch core:
//! conversion between UTF-8 byte offsets and UTF-16 code-unit offsets,
//! locating a bot command and its argument text inside a message via the
//! platform's UTF-16 entity ranges, re-wrapping "code" spans of the original
//! message into a stored reply, the keyword store with its per-(group,
//! keyword) uniqueness invariant, the per-message dispatch decision, and the
//! update-loop cursor. Transport, persistence and process plumbing live in
//! the unverified application layer around this crate.

pub mod codec;
pub mod config;
pub mod cursor;
pub mod dispatch;
pub mod formatter;
pub mod message;
pub mod notices;
pub mod parser;
pub mod store;
pub mod text;
