//! The terminal: its state, the parser of its input, and what a user interface
//! reads from it.

pub mod attributes;
pub mod control;
pub mod copying;
pub mod csi;
pub mod dirty;
pub mod editing;
pub mod laws;
pub mod model;
pub mod modes;
pub mod moves;
pub mod osc;
pub mod params;
pub mod parser;
pub mod pieces;
pub mod printing;
pub mod queries;
pub mod rendition;
pub mod resets;
pub mod resize;
pub mod screen;
pub mod selection;
pub mod sequences;
pub mod state;
pub mod telling;
pub mod types;
pub mod versions;
pub mod viewing;
pub mod viewport;

pub use crate::cell::{Color, CursorShape, Style, StyleFlags, TerminalCell, UnderlineStyle};
pub use crate::grid::TerminalGrid;
pub use crate::scrollback::ScrollbackLine;
pub use dirty::DirtyRegion;
pub use modes::TerminalModes;
pub use state::TerminalState;
pub use types::{
    clamp_terminal_dimensions, Charset, ClipboardReadKind, ClipboardReadRequest, CommandZone,
    SavedCursor, Selection, SelectionMode, ZoneState, MAX_TERMINAL_COLS, MAX_TERMINAL_ROWS,
};
