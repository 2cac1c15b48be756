//! Core of a terminal multiplexer: pane geometry, a weighted split-tree
//! layout engine, bounded per-pane output buffers, an escape-sequence frame
//! renderer, per-session lifecycle tracking, and the supervisor state
//! machine. Process and descriptor I/O (forking a shell onto a pty, reading
//! its master descriptor) lives outside the library and hands in plain
//! values; everything here is pure logic with verified contracts.

pub mod buffer;
pub mod geometry;
pub mod layout;
pub mod render;
pub mod session;
pub mod supervisor;
