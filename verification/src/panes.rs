//! Panes along one axis: which one is next to another, which divider an arrow moves.

use vstd::prelude::*;

verus! {

/// The panes of a split at most.
pub const MAX_PANES: usize = 6;

/// How the terminal area is split.
#[derive(Debug, Clone, Copy, PartialEq, Eq, Structural)]
pub enum SplitMode {
    /// One pane fills the area.
    Single,
    /// Panes side by side.
    Vertical,
    /// Panes one above the other.
    Horizontal,
}

#[derive(Debug, Clone, Copy, PartialEq, Eq, Structural)]
pub enum PaneDirection {
    Left,
    Right,
    Up,
    Down,
}

/// Whether a direction leads to the panes behind along the axis of the split. Nothing
/// for a direction across it.
pub open spec fn along_axis(mode: SplitMode, direction: PaneDirection) -> Option<bool> {
    match (mode, direction) {
        (SplitMode::Vertical, PaneDirection::Left) => Some(false),
        (SplitMode::Vertical, PaneDirection::Right) => Some(true),
        (SplitMode::Horizontal, PaneDirection::Up) => Some(false),
        (SplitMode::Horizontal, PaneDirection::Down) => Some(true),
        _ => None,
    }
}

pub fn direction_along_axis(split_mode: SplitMode, direction: PaneDirection) -> (forward: Option<bool>)
    ensures
        forward == along_axis(split_mode, direction),
{
    match split_mode {
        SplitMode::Single => None,
        SplitMode::Vertical => match direction {
            PaneDirection::Left => Some(false),
            PaneDirection::Right => Some(true),
            _ => None,
        },
        SplitMode::Horizontal => match direction {
            PaneDirection::Up => Some(false),
            PaneDirection::Down => Some(true),
            _ => None,
        },
    }
}

/// The pane next to another in a direction. There is none beyond the edges.
pub open spec fn neighbour(
    mode: SplitMode,
    focused: int,
    count: int,
    direction: PaneDirection,
) -> Option<int> {
    match along_axis(mode, direction) {
        Some(true) => if focused + 1 < count {
            Some(focused + 1)
        } else {
            None
        },
        Some(false) => if focused > 0 {
            Some(focused - 1)
        } else {
            None
        },
        None => None,
    }
}

pub fn directional_pane_target(
    split_mode: SplitMode,
    focused_pane: usize,
    pane_count: usize,
    direction: PaneDirection,
) -> (target: Option<usize>)
    ensures
        target is Some <==> neighbour(
            split_mode,
            focused_pane as int,
            pane_count as int,
            direction,
        ) is Some,
        target matches Some(pane) ==> neighbour(
            split_mode,
            focused_pane as int,
            pane_count as int,
            direction,
        ) == Some(pane as int),
{
    match direction_along_axis(split_mode, direction) {
        Some(forward) => {
            if forward {
                if pane_count > 0 && focused_pane < pane_count - 1 {
                    Some(focused_pane + 1)
                } else {
                    None
                }
            } else if focused_pane > 0 {
                Some(focused_pane - 1)
            } else {
                None
            }
        },
        None => None,
    }
}

/// The divider that an arrow moves: the one on the arrow's side of the pane, or the
/// other where there is none. A divider has the number of the pane before it.
pub open spec fn moved_divider(
    mode: SplitMode,
    focused: int,
    count: int,
    direction: PaneDirection,
) -> Option<int> {
    if count < 2 {
        None
    } else {
        match along_axis(mode, direction) {
            Some(true) => Some(
                if focused < count - 2 {
                    focused
                } else {
                    count - 2
                },
            ),
            Some(false) => Some(
                if focused > 0 {
                    focused - 1
                } else {
                    0
                },
            ),
            None => None,
        }
    }
}

pub fn resize_divider_target(
    split_mode: SplitMode,
    focused_pane: usize,
    pane_count: usize,
    direction: PaneDirection,
) -> (target: Option<usize>)
    ensures
        target is Some <==> moved_divider(
            split_mode,
            focused_pane as int,
            pane_count as int,
            direction,
        ) is Some,
        target matches Some(divider) ==> moved_divider(
            split_mode,
            focused_pane as int,
            pane_count as int,
            direction,
        ) == Some(divider as int),
{
    if pane_count < 2 {
        return None;
    }
    match direction_along_axis(split_mode, direction) {
        Some(forward) => {
            if forward {
                if focused_pane < pane_count - 2 {
                    Some(focused_pane)
                } else {
                    Some(pane_count - 2)
                }
            } else if focused_pane > 0 {
                Some(focused_pane - 1)
            } else {
                Some(0)
            }
        },
        None => None,
    }
}

/// The last of some sessions.
pub fn last_session_index(session_count: usize) -> (last: Option<usize>)
    ensures
        last == (if session_count == 0 {
            None
        } else {
            Some((session_count - 1) as usize)
        }),
{
    if session_count == 0 {
        None
    } else {
        Some(session_count - 1)
    }
}

/// The opposite direction.
pub open spec fn opposite(direction: PaneDirection) -> PaneDirection {
    match direction {
        PaneDirection::Left => PaneDirection::Right,
        PaneDirection::Right => PaneDirection::Left,
        PaneDirection::Up => PaneDirection::Down,
        PaneDirection::Down => PaneDirection::Up,
    }
}

/// A pane next to another has it as its neighbour in the opposite direction, and both
/// are among the panes.
pub proof fn neighbours_are_mutual(mode: SplitMode, focused: int, count: int, direction: PaneDirection)
    requires
        0 <= focused < count,
        neighbour(mode, focused, count, direction) is Some,
    ensures
        0 <= neighbour(mode, focused, count, direction)->0 < count,
        neighbour(mode, neighbour(mode, focused, count, direction)->0, count, opposite(direction))
            == Some(focused),
{
}

/// The divider that an arrow moves is a side of the pane, and lies between two panes.
pub proof fn moved_dividers_touch_the_pane(
    mode: SplitMode,
    focused: int,
    count: int,
    direction: PaneDirection,
)
    requires
        0 <= focused < count,
        moved_divider(mode, focused, count, direction) is Some,
    ensures
        ({
            let d = moved_divider(mode, focused, count, direction)->0;
            0 <= d && d + 1 < count && (d == focused || d + 1 == focused)
        }),
{
}

/// Panes side by side are reached to the right in their order and to the left against it;
/// panes one above the other downwards and upwards. Across there is none, nor beyond the
/// ends, nor without a split.
pub proof fn panes_are_reached_in_their_order(focused: int, count: int)
    requires
        0 <= focused < count,
    ensures
        ({
            let after = if focused + 1 < count {
                Some(focused + 1)
            } else {
                None
            };
            let before = if focused > 0 {
                Some(focused - 1)
            } else {
                None
            };
            &&& neighbour(SplitMode::Vertical, focused, count, PaneDirection::Right) == after
            &&& neighbour(SplitMode::Vertical, focused, count, PaneDirection::Left) == before
            &&& neighbour(SplitMode::Horizontal, focused, count, PaneDirection::Down) == after
            &&& neighbour(SplitMode::Horizontal, focused, count, PaneDirection::Up) == before
            &&& neighbour(SplitMode::Vertical, focused, count, PaneDirection::Down) is None
            &&& neighbour(SplitMode::Vertical, focused, count, PaneDirection::Up) is None
            &&& neighbour(SplitMode::Horizontal, focused, count, PaneDirection::Left) is None
            &&& neighbour(SplitMode::Horizontal, focused, count, PaneDirection::Right) is None
        }),
        forall|direction: PaneDirection|
            (#[trigger] neighbour(SplitMode::Single, focused, count, direction)) is None,
{
}

/// An arrow along the panes moves the divider on that side of the pane, and the one on its
/// other side where there is none. (Divider `k` lies between the panes `k` and `k + 1`.)
pub proof fn arrows_move_the_divider_on_their_side(focused: int, count: int)
    requires
        0 <= focused < count,
        count >= 2,
    ensures
        ({
            let right = moved_divider(SplitMode::Vertical, focused, count, PaneDirection::Right);
            let left = moved_divider(SplitMode::Vertical, focused, count, PaneDirection::Left);
            &&& focused < count - 1 ==> right == Some(focused)
            &&& focused == count - 1 ==> right == Some(focused - 1)
            &&& focused > 0 ==> left == Some(focused - 1)
            &&& focused == 0 ==> left == Some(0int)
            &&& moved_divider(SplitMode::Horizontal, focused, count, PaneDirection::Down) == right
            &&& moved_divider(SplitMode::Horizontal, focused, count, PaneDirection::Up) == left
            &&& moved_divider(SplitMode::Vertical, focused, count, PaneDirection::Up) is None
            &&& moved_divider(SplitMode::Horizontal, focused, count, PaneDirection::Left) is None
        }),
{
}

} // verus!
