//! DocSail: a terminal viewer for Markdown workspaces.
//!
//! The library holds the viewer's state machine, the Markdown document model
//! and its text queries, the preview layout, and the small decision functions
//! that the terminal front end drives.

pub mod text;
pub mod app;
pub mod markdown;
pub mod parse;
pub mod ui;
pub mod navigation;
pub mod diagram;
pub mod event;
pub mod terminal;
pub mod workspace;
pub mod command;
