//! Verified core of a terminal viewer for ETW trace events: the event store,
//! the viewer state machine, filtering and searching, message templates and
//! the layout arithmetic behind the event table.

pub mod store;
pub mod text;
pub mod template;
pub mod pattern;
pub mod app;
pub mod filter;
pub mod keys;
pub mod etw;
pub mod view;
pub mod timefmt;
pub mod segments;
pub mod laws;
