//! The core of a terminal emulator: screen model, control-sequence parser,
//! scrollback, graphics, links, panes and keyboard encoding.

pub mod cell;
pub mod char_width;
pub mod chrome;
pub mod color;
pub mod command_palette;
pub mod commands;
pub mod config;
pub mod desk;
pub mod grid;
pub mod input;
pub mod keyboard;
pub mod kitty_graphics;
pub mod link;
pub mod outside;
pub mod panes;
pub mod paths;
pub mod pointer;
pub mod pty;
pub mod scrollback;
pub mod search;
pub mod search_replace;
pub mod session;
pub mod session_persistence;
pub mod sidebar;
pub mod status;
pub mod tab_switcher;
pub mod tabs;
pub mod terminal;
pub mod terminal_view;
pub mod text;
pub mod toasts;
pub mod window;
pub mod workspace;
pub mod write_queue;
