use jterm3::panes::{
    directional_pane_target, last_session_index, resize_divider_target, PaneDirection, SplitMode,
};

#[test]
fn pane_focus_is_axis_aware_and_never_wraps_at_an_edge() {
    assert_eq!(
        directional_pane_target(SplitMode::Vertical, 0, 3, PaneDirection::Right),
        Some(1)
    );
    assert_eq!(
        directional_pane_target(SplitMode::Vertical, 2, 3, PaneDirection::Left),
        Some(1)
    );
    assert_eq!(
        directional_pane_target(SplitMode::Horizontal, 0, 2, PaneDirection::Down),
        Some(1)
    );
    assert_eq!(
        directional_pane_target(SplitMode::Horizontal, 1, 2, PaneDirection::Up),
        Some(0)
    );

    assert_eq!(
        directional_pane_target(SplitMode::Vertical, 0, 3, PaneDirection::Left),
        None,
        "left edge must not wrap"
    );
    assert_eq!(
        directional_pane_target(SplitMode::Horizontal, 2, 3, PaneDirection::Down),
        None,
        "bottom edge must not wrap"
    );
    assert_eq!(
        directional_pane_target(SplitMode::Vertical, 0, 2, PaneDirection::Down),
        None,
        "perpendicular direction must not change focus"
    );
    assert_eq!(
        directional_pane_target(SplitMode::Single, 0, 1, PaneDirection::Right),
        None
    );
}

#[test]
fn resize_arrows_pick_the_divider_on_their_own_side() {
    // Middle pane of three: right arrow moves its right divider (1), left
    // arrow moves its left divider (0).
    assert_eq!(
        resize_divider_target(SplitMode::Vertical, 1, 3, PaneDirection::Right),
        Some(1)
    );
    assert_eq!(
        resize_divider_target(SplitMode::Vertical, 1, 3, PaneDirection::Left),
        Some(0)
    );
    // Edge panes fall back to their only divider so the arrow still works.
    assert_eq!(
        resize_divider_target(SplitMode::Vertical, 2, 3, PaneDirection::Right),
        Some(1)
    );
    assert_eq!(
        resize_divider_target(SplitMode::Vertical, 0, 3, PaneDirection::Left),
        Some(0)
    );
    // Perpendicular arrows and single panes do nothing.
    assert_eq!(
        resize_divider_target(SplitMode::Vertical, 0, 3, PaneDirection::Up),
        None
    );
    assert_eq!(
        resize_divider_target(SplitMode::Horizontal, 0, 1, PaneDirection::Down),
        None
    );
}

#[test]
fn session_last_targets_the_final_index_without_underflow() {
    assert_eq!(last_session_index(0), None);
    assert_eq!(last_session_index(1), Some(0));
    assert_eq!(last_session_index(12), Some(11));
}
