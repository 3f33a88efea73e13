//! What can be asked for by a shortcut or from the command palette.

use crate::command_palette::PaletteAction;
use crate::panes::{last_session_index, PaneDirection, SplitMode};
use crate::text::{append_decimal, append_text, chars_of, decimal_text, owned};
use vstd::prelude::*;

verus! {

/// What a shortcut stands for.
#[derive(Debug, Clone, Copy, PartialEq, Eq, Structural)]
pub enum Command {
    SessionNew,
    SessionClose,
    WindowClose,
    SessionNext,
    SessionPrev,
    SessionJump(usize),
    SessionLast,
    EditCopy,
    EditPaste,
    SearchOpen,
    SearchClose,
    SearchNext,
    SearchPrev,
    SearchHistoryPrev,
    SearchHistoryNext,
    TerminalSendSigint,
    TerminalSendEof,
    TerminalClear,
    TerminalScrollUp,
    TerminalScrollDown,
    TerminalSplitVertical,
    TerminalSplitHorizontal,
    TerminalClosePane,
    PaneFocusNext,
    PaneFocusPrev,
    PaneFocusLeft,
    PaneFocusRight,
    PaneFocusUp,
    PaneFocusDown,
    PaneResizeLeft,
    PaneResizeRight,
    PaneResizeUp,
    PaneResizeDown,
    PaneZoomToggle,
    PaneSwap,
    ConfigOpen,
    ConfigClose,
    ConfigToggle,
    SidebarToggle,
    FontZoomIn,
    FontZoomOut,
    FontZoomReset,
}

/// What is done about the font's size.
#[derive(Debug, Clone, Copy, PartialEq, Eq, Structural)]
pub enum FontStep {
    Larger,
    Smaller,
    Standard,
}

/// What is done about a search that is open.
#[derive(Debug, Clone, Copy, PartialEq, Eq, Structural)]
pub enum SearchStep {
    Close,
    Next,
    Previous,
    HistoryPrevious,
    HistoryNext,
}

/// A step that a shortcut or the palette asks for.
#[derive(Debug, Clone, Copy, PartialEq, Eq, Structural)]
pub enum Step {
    Nothing,
    NewSession,
    CloseActive,
    CloseWindow,
    NextSession,
    PreviousSession,
    JumpSession(usize),
    Copy,
    Paste,
    /// The search is opened or closed; the match is shown where `reveal` says so.
    ToggleSearch { reveal: bool },
    Search(SearchStep),
    /// A control code for the program in the terminal.
    Send(u8),
    ScrollLines { up: bool },
    ScrollToTop,
    ScrollToBottom,
    ClearScreen,
    Split(SplitMode),
    ClosePane,
    FocusNextPane,
    FocusPreviousPane,
    FocusPane(PaneDirection),
    ResizePane(PaneDirection),
    ZoomPane,
    SwapPanes,
    OpenSettings,
    CloseSettings,
    ToggleSettings,
    ToggleSidebar,
    Font(FontStep),
    QuickTabSwitch,
    OpenHelp,
}

/// The step that a shortcut asks for. Nothing where it does not apply: what concerns a
/// search needs one that is open.
pub open spec fn command_step(cmd: Command, search_open: bool, session_count: int) -> Option<Step> {
    match cmd {
        Command::SessionNew => Some(Step::NewSession),
        Command::SessionClose => Some(Step::CloseActive),
        Command::WindowClose => Some(Step::CloseWindow),
        Command::SessionNext => Some(Step::NextSession),
        Command::SessionPrev => Some(Step::PreviousSession),
        Command::SessionJump(n) => Some(Step::JumpSession(n)),
        Command::SessionLast => if session_count > 0 {
            Some(Step::JumpSession((session_count - 1) as usize))
        } else {
            Some(Step::Nothing)
        },
        Command::EditCopy => Some(Step::Copy),
        Command::EditPaste => if session_count > 0 {
            Some(Step::Paste)
        } else {
            None
        },
        Command::SearchOpen => Some(Step::ToggleSearch { reveal: true }),
        Command::SearchClose => if search_open {
            Some(Step::Search(SearchStep::Close))
        } else {
            None
        },
        Command::SearchNext => if search_open {
            Some(Step::Search(SearchStep::Next))
        } else {
            None
        },
        Command::SearchPrev => if search_open {
            Some(Step::Search(SearchStep::Previous))
        } else {
            None
        },
        Command::SearchHistoryPrev => if search_open {
            Some(Step::Search(SearchStep::HistoryPrevious))
        } else {
            None
        },
        Command::SearchHistoryNext => if search_open {
            Some(Step::Search(SearchStep::HistoryNext))
        } else {
            None
        },
        Command::TerminalSendSigint => Some(Step::Send(3)),
        Command::TerminalSendEof => Some(Step::Send(4)),
        Command::TerminalClear => Some(Step::Send(12)),
        Command::TerminalScrollUp => Some(Step::ScrollLines { up: true }),
        Command::TerminalScrollDown => Some(Step::ScrollLines { up: false }),
        Command::TerminalSplitVertical => Some(Step::Split(SplitMode::Vertical)),
        Command::TerminalSplitHorizontal => Some(Step::Split(SplitMode::Horizontal)),
        Command::TerminalClosePane => Some(Step::ClosePane),
        Command::PaneFocusNext => Some(Step::FocusNextPane),
        Command::PaneFocusPrev => Some(Step::FocusPreviousPane),
        Command::PaneFocusLeft => Some(Step::FocusPane(PaneDirection::Left)),
        Command::PaneFocusRight => Some(Step::FocusPane(PaneDirection::Right)),
        Command::PaneFocusUp => Some(Step::FocusPane(PaneDirection::Up)),
        Command::PaneFocusDown => Some(Step::FocusPane(PaneDirection::Down)),
        Command::PaneResizeLeft => Some(Step::ResizePane(PaneDirection::Left)),
        Command::PaneResizeRight => Some(Step::ResizePane(PaneDirection::Right)),
        Command::PaneResizeUp => Some(Step::ResizePane(PaneDirection::Up)),
        Command::PaneResizeDown => Some(Step::ResizePane(PaneDirection::Down)),
        Command::PaneZoomToggle => Some(Step::ZoomPane),
        Command::PaneSwap => Some(Step::SwapPanes),
        Command::ConfigOpen => Some(Step::OpenSettings),
        Command::ConfigClose => Some(Step::CloseSettings),
        Command::ConfigToggle => Some(Step::ToggleSettings),
        Command::SidebarToggle => Some(Step::ToggleSidebar),
        Command::FontZoomIn => Some(Step::Font(FontStep::Larger)),
        Command::FontZoomOut => Some(Step::Font(FontStep::Smaller)),
        Command::FontZoomReset => Some(Step::Font(FontStep::Standard)),
    }
}

fn search_command(search_open: bool, step: SearchStep) -> (asked: Option<Step>)
    ensures
        asked == (if search_open {
            Some(Step::Search(step))
        } else {
            None
        }),
{
    if search_open {
        Some(Step::Search(step))
    } else {
        None
    }
}

/// The step that a shortcut asks for, if it applies.
pub fn dispatch_command(cmd: Command, search_open: bool, session_count: usize) -> (step: Option<Step>)
    ensures
        step == command_step(cmd, search_open, session_count as int),
{
    match cmd {
        Command::SessionNew => Some(Step::NewSession),
        Command::SessionClose => Some(Step::CloseActive),
        Command::WindowClose => Some(Step::CloseWindow),
        Command::SessionNext => Some(Step::NextSession),
        Command::SessionPrev => Some(Step::PreviousSession),
        Command::SessionJump(n) => Some(Step::JumpSession(n)),
        Command::SessionLast => match last_session_index(session_count) {
            Some(last) => Some(Step::JumpSession(last)),
            None => Some(Step::Nothing),
        },
        Command::EditCopy => Some(Step::Copy),
        Command::EditPaste => if session_count > 0 {
            Some(Step::Paste)
        } else {
            None
        },
        Command::SearchOpen => Some(Step::ToggleSearch { reveal: true }),
        Command::SearchClose => search_command(search_open, SearchStep::Close),
        Command::SearchNext => search_command(search_open, SearchStep::Next),
        Command::SearchPrev => search_command(search_open, SearchStep::Previous),
        Command::SearchHistoryPrev => search_command(search_open, SearchStep::HistoryPrevious),
        Command::SearchHistoryNext => search_command(search_open, SearchStep::HistoryNext),
        Command::TerminalSendSigint => Some(Step::Send(3)),
        Command::TerminalSendEof => Some(Step::Send(4)),
        Command::TerminalClear => Some(Step::Send(12)),
        Command::TerminalScrollUp => Some(Step::ScrollLines { up: true }),
        Command::TerminalScrollDown => Some(Step::ScrollLines { up: false }),
        Command::TerminalSplitVertical => Some(Step::Split(SplitMode::Vertical)),
        Command::TerminalSplitHorizontal => Some(Step::Split(SplitMode::Horizontal)),
        Command::TerminalClosePane => Some(Step::ClosePane),
        Command::PaneFocusNext => Some(Step::FocusNextPane),
        Command::PaneFocusPrev => Some(Step::FocusPreviousPane),
        Command::PaneFocusLeft => Some(Step::FocusPane(PaneDirection::Left)),
        Command::PaneFocusRight => Some(Step::FocusPane(PaneDirection::Right)),
        Command::PaneFocusUp => Some(Step::FocusPane(PaneDirection::Up)),
        Command::PaneFocusDown => Some(Step::FocusPane(PaneDirection::Down)),
        Command::PaneResizeLeft => Some(Step::ResizePane(PaneDirection::Left)),
        Command::PaneResizeRight => Some(Step::ResizePane(PaneDirection::Right)),
        Command::PaneResizeUp => Some(Step::ResizePane(PaneDirection::Up)),
        Command::PaneResizeDown => Some(Step::ResizePane(PaneDirection::Down)),
        Command::PaneZoomToggle => Some(Step::ZoomPane),
        Command::PaneSwap => Some(Step::SwapPanes),
        Command::ConfigOpen => Some(Step::OpenSettings),
        Command::ConfigClose => Some(Step::CloseSettings),
        Command::ConfigToggle => Some(Step::ToggleSettings),
        Command::SidebarToggle => Some(Step::ToggleSidebar),
        Command::FontZoomIn => Some(Step::Font(FontStep::Larger)),
        Command::FontZoomOut => Some(Step::Font(FontStep::Smaller)),
        Command::FontZoomReset => Some(Step::Font(FontStep::Standard)),
    }
}

/// The step that an action of the palette asks for.
pub open spec fn palette_step(action: PaletteAction) -> Step {
    match action {
        PaletteAction::NewTab => Step::NewSession,
        PaletteAction::CloseTab => Step::CloseActive,
        PaletteAction::NextTab => Step::NextSession,
        PaletteAction::PrevTab => Step::PreviousSession,
        PaletteAction::Copy => Step::Copy,
        PaletteAction::Paste => Step::Paste,
        PaletteAction::OpenSearch => Step::ToggleSearch { reveal: false },
        PaletteAction::SplitVertical => Step::Split(SplitMode::Vertical),
        PaletteAction::SplitHorizontal => Step::Split(SplitMode::Horizontal),
        PaletteAction::FocusNextPane => Step::FocusNextPane,
        PaletteAction::ClosePane => Step::ClosePane,
        PaletteAction::ToggleSidebar => Step::ToggleSidebar,
        PaletteAction::OpenSettings => Step::OpenSettings,
        PaletteAction::QuickTabSwitch => Step::QuickTabSwitch,
        PaletteAction::OpenHelp => Step::OpenHelp,
        PaletteAction::ZoomIn => Step::Font(FontStep::Larger),
        PaletteAction::ZoomOut => Step::Font(FontStep::Smaller),
        PaletteAction::ZoomReset => Step::Font(FontStep::Standard),
        PaletteAction::ScrollToTop => Step::ScrollToTop,
        PaletteAction::ScrollToBottom => Step::ScrollToBottom,
        PaletteAction::ClearScreen => Step::ClearScreen,
    }
}

/// The step that an action of the palette asks for.
pub fn palette_action_step(action: PaletteAction) -> (step: Step)
    ensures
        step == palette_step(action),
{
    match action {
        PaletteAction::NewTab => Step::NewSession,
        PaletteAction::CloseTab => Step::CloseActive,
        PaletteAction::NextTab => Step::NextSession,
        PaletteAction::PrevTab => Step::PreviousSession,
        PaletteAction::Copy => Step::Copy,
        PaletteAction::Paste => Step::Paste,
        PaletteAction::OpenSearch => Step::ToggleSearch { reveal: false },
        PaletteAction::SplitVertical => Step::Split(SplitMode::Vertical),
        PaletteAction::SplitHorizontal => Step::Split(SplitMode::Horizontal),
        PaletteAction::FocusNextPane => Step::FocusNextPane,
        PaletteAction::ClosePane => Step::ClosePane,
        PaletteAction::ToggleSidebar => Step::ToggleSidebar,
        PaletteAction::OpenSettings => Step::OpenSettings,
        PaletteAction::QuickTabSwitch => Step::QuickTabSwitch,
        PaletteAction::OpenHelp => Step::OpenHelp,
        PaletteAction::ZoomIn => Step::Font(FontStep::Larger),
        PaletteAction::ZoomOut => Step::Font(FontStep::Smaller),
        PaletteAction::ZoomReset => Step::Font(FontStep::Standard),
        PaletteAction::ScrollToTop => Step::ScrollToTop,
        PaletteAction::ScrollToBottom => Step::ScrollToBottom,
        PaletteAction::ClearScreen => Step::ClearScreen,
    }
}

/// What clears the screen and the lines above it, and sends the cursor home.
pub open spec fn clear_sequence() -> Seq<u8> {
    seq![
        27u8,
        '[' as u8,
        '3' as u8,
        'J' as u8,
        27u8,
        '[' as u8,
        '2' as u8,
        'J' as u8,
        27u8,
        '[' as u8,
        'H' as u8,
    ]
}

/// What clears the screen and the lines above it, and sends the cursor home.
pub fn clear_screen_bytes() -> (bytes: Vec<u8>)
    ensures
        bytes@ == clear_sequence(),
{
    vec![
        27,
        '[' as u8,
        '3' as u8,
        'J' as u8,
        27,
        '[' as u8,
        '2' as u8,
        'J' as u8,
        27,
        '[' as u8,
        'H' as u8,
    ]
}

/// What the user is told of text that was copied.
pub fn copied_message(text: &str) -> (message: String)
    ensures
        message@ == "Copied "@ + decimal_text(text@.len()) + (if text@.len() == 1 {
            " char"@
        } else {
            " chars"@
        }),
{
    let n: usize = chars_of(text).len();
    let mut message = owned("Copied ");
    append_decimal(&mut message, n as u64);
    if n == 1 {
        append_text(&mut message, " char");
    } else {
        append_text(&mut message, " chars");
    }
    message
}

} // verus!
