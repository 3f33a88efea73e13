//! What shortcuts and the palette do to the tabs and panes.

use super::{session_size, DeskModel, Request};
use crate::command_palette::palette_items;
use crate::commands::{command_step, palette_step, Command, FontStep, SearchStep, Step};
use crate::panes::SplitMode;
use crate::workspace::laws::{active_session, session_in};
use crate::workspace::{lemma_place, place_of, WorkspaceModel};
use vstd::prelude::*;

verus! {

/// What a shortcut does, and asks for.
pub open spec fn commanded(d: DeskModel, command: Command) -> (DeskModel, Request) {
    match command_step(command, d.chrome.search_open, d.workspace.ids.len() as int) {
        Some(step) => d.step(step),
        None => (d, Request::Nothing),
    }
}

/// The place behind another, and the first behind the last.
pub open spec fn place_after(place: int, count: int) -> int {
    if place + 1 < count {
        place + 1
    } else {
        0
    }
}

/// The place before another, and the last before the first.
pub open spec fn place_before(place: int, count: int) -> int {
    if place > 0 {
        place - 1
    } else {
        count - 1
    }
}

proof fn lemma_round(place: int, count: int)
    requires
        0 <= place < count,
    ensures
        (place + 1) % count == place_after(place, count),
        (place + count - 1) % count == place_before(place, count),
{
    if place + 1 < count {
        assert((place + 1) % count == place + 1) by (nonlinear_arith)
            requires
                0 <= place,
                place + 1 < count,
        ;
    } else {
        assert((place + 1) % count == 0) by (nonlinear_arith)
            requires
                place + 1 == count,
                count > 0,
        ;
    }
    if place > 0 {
        assert((place + count - 1) % count == place - 1) by (nonlinear_arith)
            requires
                0 < place < count,
        ;
    } else {
        assert((place + count - 1) % count == count - 1) by (nonlinear_arith)
            requires
                place == 0,
                count > 0,
        ;
    }
}

/// The next tab is the one to the right and the previous one the one to the left, around the
/// ends; a tab can be gone to by its place, and to the last. The tabs themselves do not
/// change.
pub proof fn tabs_are_gone_through(d: DeskModel, n: usize)
    requires
        d.workspace.wf(),
        d.workspace.ids.len() <= usize::MAX,
    ensures
        ({
            let w = d.workspace;
            let count = w.ids.len() as int;
            let next = commanded(d, Command::SessionNext).0.workspace;
            let previous = commanded(d, Command::SessionPrev).0.workspace;
            let last = commanded(d, Command::SessionLast).0.workspace;
            let jumped = commanded(d, Command::SessionJump(n)).0.workspace;
            &&& active_session(next) == w.ids[place_after(w.active as int, count)]
            &&& active_session(previous) == w.ids[place_before(w.active as int, count)]
            &&& active_session(last) == w.ids.last()
            &&& n < count ==> active_session(jumped) == w.ids[n as int]
            &&& n >= count ==> jumped == w
            &&& next.ids == w.ids && previous.ids == w.ids && last.ids == w.ids && jumped.ids
                == w.ids
        }),
{
    reveal(DeskModel::step);
    lemma_round(d.workspace.active as int, d.workspace.ids.len() as int);
}

/// The focus goes to the next pane and to the previous one, around the ends; to the right
/// and down to the pane behind, to the left and up to the one before, along the split. What
/// the panes show does not change.
pub proof fn panes_are_gone_through(d: DeskModel)
    requires
        d.workspace.wf(),
        d.workspace.mode != SplitMode::Single,
    ensures
        ({
            let w = d.workspace;
            let count = w.panes.len() as int;
            let at = w.focused as int;
            let to = |command: Command| commanded(d, command).0.workspace;
            let side = w.mode == SplitMode::Vertical;
            let ahead = if at + 1 < count {
                session_in(w, at + 1)
            } else {
                active_session(w)
            };
            let back = if at > 0 {
                session_in(w, at - 1)
            } else {
                active_session(w)
            };
            &&& active_session(to(Command::PaneFocusNext)) == session_in(w, place_after(at, count))
            &&& active_session(to(Command::PaneFocusPrev)) == session_in(
                w,
                place_before(at, count),
            )
            &&& side ==> active_session(to(Command::PaneFocusRight)) == ahead
            &&& side ==> active_session(to(Command::PaneFocusLeft)) == back
            &&& !side ==> active_session(to(Command::PaneFocusDown)) == ahead
            &&& !side ==> active_session(to(Command::PaneFocusUp)) == back
            &&& side ==> to(Command::PaneFocusDown) == w && to(Command::PaneFocusUp) == w
            &&& !side ==> to(Command::PaneFocusRight) == w && to(Command::PaneFocusLeft) == w
            &&& to(Command::PaneFocusNext).panes == w.panes && to(Command::PaneFocusPrev).panes
                == w.panes
        }),
{
    reveal(DeskModel::step);
    lemma_round(d.workspace.focused as int, d.workspace.panes.len() as int);
}

/// What other shortcuts ask for: tabs and panes are opened and closed, text is copied and
/// pasted into the active session, and the program gets the codes 3, 4 and 12.
pub proof fn shortcuts_ask_for(d: DeskModel)
    requires
        d.workspace.wf(),
    ensures
        ({
            let w = d.workspace;
            let asked = |command: Command| commanded(d, command).1;
            &&& asked(Command::SessionNew) == Request::SpawnSession
            &&& asked(Command::SessionClose) == Request::Close(w.active, None)
            &&& asked(Command::WindowClose) == Request::CloseWindow
            &&& asked(Command::EditCopy) == Request::Copy
            &&& asked(Command::EditPaste) == Request::Paste(active_session(w))
            &&& asked(Command::TerminalSendSigint) == Request::Send(3)
            &&& asked(Command::TerminalSendEof) == Request::Send(4)
            &&& asked(Command::TerminalClear) == Request::Send(12)
            &&& asked(Command::TerminalScrollUp) == (Request::ScrollLines { up: true })
            &&& asked(Command::TerminalScrollDown) == (Request::ScrollLines { up: false })
            &&& asked(Command::FontZoomIn) == Request::Font(FontStep::Larger)
            &&& asked(Command::FontZoomOut) == Request::Font(FontStep::Smaller)
            &&& asked(Command::FontZoomReset) == Request::Font(FontStep::Standard)
            &&& w.mode == SplitMode::Single ==> asked(Command::TerminalSplitVertical)
                == Request::SpawnPane(SplitMode::Vertical) && asked(
                Command::TerminalSplitHorizontal,
            ) == Request::SpawnPane(SplitMode::Horizontal)
            &&& w.mode == SplitMode::Single ==> asked(Command::TerminalClosePane)
                == Request::Close(w.active, None)
            &&& w.mode != SplitMode::Single && w.focused > 0 ==> asked(Command::TerminalClosePane)
                == Request::Close(w.active, Some(session_in(w, w.focused - 1)))
            &&& w.mode != SplitMode::Single && w.focused == 0 ==> asked(Command::TerminalClosePane)
                == Request::Close(w.active, Some(session_in(w, 1)))
        }),
{
    reveal(DeskModel::step);
}

/// A split of the other kind turns the panes: side by side they come one above the other, and
/// the other way round, with what they show.
pub proof fn the_other_split_turns_the_panes(d: DeskModel)
    requires
        d.workspace.wf(),
        d.workspace.mode != SplitMode::Single,
    ensures
        ({
            let w = d.workspace;
            let to = if w.mode == SplitMode::Vertical {
                Command::TerminalSplitHorizontal
            } else {
                Command::TerminalSplitVertical
            };
            let turned = commanded(d, to).0.workspace;
            &&& turned.mode == (if w.mode == SplitMode::Vertical {
                SplitMode::Horizontal
            } else {
                SplitMode::Vertical
            })
            &&& turned.panes == w.panes
            &&& turned.focused == w.focused
        }),
{
    reveal(DeskModel::step);
}

/// What is opened and closed by the same shortcut is as it was after doing it twice, and what
/// concerns a search does nothing while none is open.
pub proof fn toggles_undo_themselves(d: DeskModel)
    requires
        d.workspace.wf(),
    ensures
        ({
            let done = |d: DeskModel, command: Command| commanded(d, command).0;
            let twice = |command: Command| done(done(d, command), command);
            &&& twice(Command::SearchOpen) == d
            &&& twice(Command::ConfigToggle) == d
            &&& twice(Command::SidebarToggle) == d
            &&& d.workspace.mode != SplitMode::Single ==> twice(Command::PaneZoomToggle) == d
            &&& done(d, Command::SearchOpen).chrome.search_open == !d.chrome.search_open
            &&& done(d, Command::SidebarToggle).sidebar_open == !d.sidebar_open
            &&& done(d, Command::ConfigOpen).chrome.config_panel_open
            &&& !done(d, Command::ConfigClose).chrome.config_panel_open
            &&& d.workspace.mode != SplitMode::Single ==> done(
                d,
                Command::PaneZoomToggle,
            ).workspace.zoomed == !d.workspace.zoomed
            &&& d.chrome.search_open ==> !done(d, Command::SearchClose).chrome.search_open
            &&& d.chrome.search_open ==> commanded(d, Command::SearchNext).1 == Request::Search(
                SearchStep::Next,
            ) && commanded(d, Command::SearchPrev).1 == Request::Search(SearchStep::Previous)
            &&& !d.chrome.search_open ==> commanded(d, Command::SearchNext) == (
                d,
                Request::Nothing,
            ) && commanded(d, Command::SearchPrev) == (d, Request::Nothing)
        }),
{
    reveal(DeskModel::step);
}

/// What an item of the palette is called and what it asks for.
pub open spec fn offers(i: int, name: Seq<char>, step: Option<Step>) -> bool {
    palette_items()[i].name == name && Some(palette_step(palette_items()[i].action)) == step
}

/// Each item of the palette does what its name says, as the shortcut for it does.
#[verifier::spinoff_prover]
pub proof fn the_palette_does_what_it_says(searching: bool, count: int)
    requires
        count > 0,
    ensures
        palette_items().len() == 21,
        ({
            let like = |command: Command| command_step(command, searching, count);
            &&& offers(0, "New Tab"@, like(Command::SessionNew))
            &&& offers(1, "Close Tab"@, like(Command::SessionClose))
            &&& offers(2, "Next Tab"@, like(Command::SessionNext))
            &&& offers(3, "Previous Tab"@, like(Command::SessionPrev))
            &&& offers(4, "Copy"@, like(Command::EditCopy))
            &&& offers(5, "Paste"@, like(Command::EditPaste))
            &&& offers(6, "Find"@, Some(Step::ToggleSearch { reveal: false }))
            &&& offers(7, "Split Right"@, like(Command::TerminalSplitVertical))
            &&& offers(8, "Split Down"@, like(Command::TerminalSplitHorizontal))
            &&& offers(9, "Focus Next Pane"@, like(Command::PaneFocusNext))
            &&& offers(10, "Close Focused Pane"@, like(Command::TerminalClosePane))
            &&& offers(11, "Toggle Sidebar"@, like(Command::SidebarToggle))
            &&& offers(12, "Settings"@, like(Command::ConfigOpen))
            &&& offers(13, "Switch Tab"@, Some(Step::QuickTabSwitch))
            &&& offers(14, "Keyboard Shortcuts"@, Some(Step::OpenHelp))
            &&& offers(15, "Zoom In"@, like(Command::FontZoomIn))
            &&& offers(16, "Zoom Out"@, like(Command::FontZoomOut))
            &&& offers(17, "Reset Zoom"@, like(Command::FontZoomReset))
            &&& offers(18, "Scroll to Top"@, Some(Step::ScrollToTop))
            &&& offers(19, "Scroll to Bottom"@, Some(Step::ScrollToBottom))
            &&& offers(20, "Clear Screen"@, Some(Step::ClearScreen))
        }),
{
    reveal(palette_items);
}

/// In a split each session that a pane shows has that pane's size, and the others have the
/// whole area's; so have all where there is no split, or a pane fills the area.
pub proof fn sessions_have_the_size_of_their_panes(
    w: WorkspaceModel,
    area: (usize, usize),
    sizes: Seq<(usize, usize)>,
    pane: int,
    index: usize,
)
    requires
        w.wf(),
        0 <= pane < w.panes.len(),
    ensures
        w.mode != SplitMode::Single && !w.zoomed ==> session_size(
            w,
            w.panes[pane] as int,
            area,
            sizes,
        ) == sizes[pane],
        w.mode == SplitMode::Single || w.zoomed || !w.panes.contains(index) ==> session_size(
            w,
            index as int,
            area,
            sizes,
        ) == area,
{
    lemma_place(w.panes, w.panes[pane], 0);
    lemma_place(w.panes, index, 0);
    let found = place_of(w.panes, w.panes[pane], 0);
    if found is Some && found->0 != pane {
        assert(w.panes[found->0] == w.panes[pane]);
    }
}

} // verus!
