//! Terminal panes that run commands and report how they ended.
//!
//! A [`screen::VirtualScreen`] follows the output of a shell: it keeps the
//! character grid, the scrollback and the modes of the terminal, and it
//! watches for the marks by which a shell says that a command has started or
//! ended. A [`session::Session`] reserves the pane for one command at a time
//! and hands each result to the caller that asked for it.
pub mod capture;
pub mod clock;
pub mod editing;
pub mod grid;
pub mod laws;
pub mod lines;
pub mod modes;
pub mod ordinary;
pub mod osc;
pub mod output;
pub mod pane;
pub mod parser;
pub mod performer;
pub mod plain;
pub mod prompt;
pub mod reading;
pub mod render;
pub mod replay;
pub mod restore;
pub mod screen;
pub mod sent;
pub mod session;
pub mod sgr;
pub mod snapshot;
pub mod text;
pub mod typing;
pub mod waiter;
pub mod width;
