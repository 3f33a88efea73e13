//! Which sessions stay, which is active and what the panes show, by the sessions' identities.

use super::{all_shifted, lemma_place, place_of, shifted, WorkspaceModel};
use crate::panes::SplitMode;
use vstd::prelude::*;

verus! {

/// The session that takes input.
pub open spec fn active_session(m: WorkspaceModel) -> usize {
    m.ids[m.active as int]
}

/// The session that a pane shows.
pub open spec fn session_in(m: WorkspaceModel, pane: int) -> usize {
    m.ids[m.panes[pane] as int]
}

proof fn lemma_shifted(m: WorkspaceModel, place: usize, index: usize)
    requires
        place < m.ids.len(),
        index < m.ids.len(),
        place != index,
    ensures
        shifted(place, index) < m.ids.len() - 1,
        m.ids.remove(index as int)[shifted(place, index) as int] == m.ids[place as int],
{
}

/// A closed session is gone from the tabs and the others keep their order.
pub proof fn the_other_tabs_stay(m: WorkspaceModel, index: usize)
    requires
        m.wf(),
        index < m.ids.len(),
        m.ids.len() > 1,
    ensures
        m.closed(index).ids == m.ids.remove(index as int),
        !m.closed(index).ids.contains(m.ids[index as int]),
        forall|id: usize|
            id != m.ids[index as int] ==> (#[trigger] m.closed(index).ids.contains(id)
                <==> m.ids.contains(id)),
{
    let gone = m.ids[index as int];
    let rest = m.ids.remove(index as int);
    if rest.contains(gone) {
        let k = choose|k: int| 0 <= k < rest.len() && rest[k] == gone;
        let j = if k < index {
            k
        } else {
            k + 1
        };
        assert(m.ids[j] == m.ids[index as int]);
    }
    assert forall|id: usize| id != gone implies (#[trigger] rest.contains(id) <==> m.ids.contains(
        id,
    )) by {
        if m.ids.contains(id) {
            let k = choose|k: int| 0 <= k < m.ids.len() && m.ids[k] == id;
            let j = if k < index {
                k
            } else {
                k - 1
            };
            assert(rest[j] == id);
        }
        if rest.contains(id) {
            let k = choose|k: int| 0 <= k < rest.len() && rest[k] == id;
            let j = if k < index {
                k
            } else {
                k + 1
            };
            assert(m.ids[j] == id);
        }
    }
}

/// Without a split, closing another tab leaves the active session; closing the active one
/// makes the next one active, or the one before where there is none behind it.
pub proof fn closing_a_tab_goes_to_its_neighbour(m: WorkspaceModel, index: usize)
    requires
        m.wf(),
        m.mode == SplitMode::Single,
        index < m.ids.len(),
        m.ids.len() > 1,
    ensures
        ({
            let r = m.closed(index);
            &&& index != m.active ==> active_session(r) == active_session(m)
            &&& index == m.active && index + 1 < m.ids.len() ==> active_session(r) == m.ids[index
                + 1]
            &&& index == m.active && index + 1 == m.ids.len() ==> active_session(r) == m.ids[index
                - 1]
            &&& r.panes == seq![r.active]
        }),
{
}

/// In a split, the pane of a closed session goes too, and every other pane shows the session
/// that it showed, in the same order. A session that was not closed stays active where it
/// was; the focus of one that was closed goes to the pane before it, or to the first one.
#[verifier::spinoff_prover]
#[verifier::rlimit(40)]
pub proof fn the_other_panes_stay(m: WorkspaceModel, index: usize, pane: int)
    requires
        m.wf(),
        m.mode != SplitMode::Single,
        index < m.ids.len(),
        0 <= pane < m.panes.len(),
        m.panes[pane] != index,
    ensures
        ({
            let r = m.closed(index);
            let own = place_of(m.panes, index, 0);
            let now = if own is Some && own->0 < pane {
                pane - 1
            } else {
                pane
            };
            &&& r.panes.len() == m.panes.len() - (if own is Some {
                1int
            } else {
                0
            })
            &&& 0 <= now < r.panes.len()
            &&& session_in(r, now) == session_in(m, pane)
            &&& index != m.active ==> active_session(r) == active_session(m)
            &&& index == m.active && m.focused > 0 ==> active_session(r) == session_in(
                m,
                m.focused - 1,
            )
            &&& index == m.active && m.focused == 0 ==> active_session(r) == session_in(m, 1)
        }),
{
    lemma_place(m.panes, index, 0);
    let own = place_of(m.panes, index, 0);
    let id = m.ids[index as int];
    let left = if own is Some {
        m.panes.remove(own->0)
    } else {
        m.panes
    };
    assert(m.ids.len() > 1) by {
        if m.ids.len() == 1 {
            assert(m.panes[0] == 0 && m.panes[1] == 0);
        }
    }
    let panes = all_shifted(left, index);
    assert forall|k: int| 0 <= k < left.len() implies #[trigger] left[k] != index && left[k]
        < m.ids.len() by {
        if own is Some {
            let j = if k < own->0 {
                k
            } else {
                k + 1
            };
            assert(left[k] == m.panes[j]);
            if m.panes[j] == index {
                assert(m.panes[j] == m.panes[own->0]);
            }
        }
    }
    assert forall|k: int| 0 <= k < left.len() implies m.ids.remove(
        index as int,
    )[#[trigger] panes[k] as int] == m.ids[left[k] as int] by {
        lemma_shifted(m, left[k], index);
    }
    let r = m.closed(index);
    if panes.len() < 2 {
        assert(r.panes =~= seq![panes[0]]);
        assert(panes.len() == 1);
    }
}

/// A new session comes in at its place among the tabs, which keep their order, and is shown
/// alone.
pub proof fn a_new_tab_is_shown(m: WorkspaceModel, at: usize)
    requires
        m.wf(),
        at <= m.ids.len(),
        m.ids.len() < usize::MAX,
        m.next_id < usize::MAX,
    ensures
        ({
            let r = m.added(at);
            &&& r.ids == m.ids.insert(at as int, m.next_id)
            &&& active_session(r) == m.next_id
            &&& r.panes.len() == 1
            &&& session_in(r, 0) == m.next_id
            &&& r.mode == SplitMode::Single
        }),
{
}

/// A split puts a new session into a pane behind the focused one and makes it active; the
/// panes up to the focused one show what they showed, and so do those behind it, one further
/// on.
pub proof fn a_split_adds_a_pane_behind_the_focus(m: WorkspaceModel, mode: SplitMode, pane: int)
    requires
        m.wf(),
        0 <= pane < m.panes.len(),
        m.ids.len() < usize::MAX,
        m.next_id < usize::MAX,
    ensures
        ({
            let r = m.split_added(mode);
            let now = if pane <= m.focused {
                pane
            } else {
                pane + 1
            };
            &&& r.panes.len() == m.panes.len() + 1
            &&& session_in(r, now) == session_in(m, pane)
            &&& active_session(r) == m.next_id
            &&& session_in(r, m.focused + 1) == m.next_id
            &&& r.focused == m.focused + 1
            &&& m.mode == SplitMode::Single ==> r.mode == mode
            &&& m.mode != SplitMode::Single ==> r.mode == m.mode
            &&& r.ids.drop_last() == m.ids
        }),
{
    let r = m.split_added(mode);
    assert(r.ids.drop_last() =~= m.ids);
}

/// A session that is chosen takes input: in its own pane where it has one, and otherwise in
/// place of the one that had the focus; no other pane changes.
pub proof fn a_chosen_session_takes_input(m: WorkspaceModel, index: usize, pane: int)
    requires
        m.wf(),
        index < m.ids.len(),
        0 <= pane < m.panes.len(),
    ensures
        ({
            let r = m.shown_in_pane(index);
            &&& active_session(r) == m.ids[index as int]
            &&& session_in(r, r.focused as int) == m.ids[index as int]
            &&& r.ids == m.ids
            &&& r.panes.len() == m.panes.len()
            &&& m.panes.contains(index) ==> r.panes == m.panes
            &&& !m.panes.contains(index) ==> r.focused == m.focused && (pane != m.focused
                ==> session_in(r, pane) == session_in(m, pane))
        }),
{
    lemma_place(m.panes, index, 0);
    if m.panes.contains(index) {
        let k = choose|k: int| 0 <= k < m.panes.len() && m.panes[k] == index;
        assert(m.panes[k] == index);
    }
}

/// The focus on a pane makes the session that it shows the active one, and changes nothing
/// that is shown.
pub proof fn the_focus_takes_input(m: WorkspaceModel, pane: usize)
    requires
        m.wf(),
        pane < m.panes.len(),
    ensures
        m.focused_on(pane).focused == pane,
        active_session(m.focused_on(pane)) == session_in(m, pane as int),
        m.focused_on(pane).panes == m.panes,
        m.focused_on(pane).ids == m.ids,
{
}

/// Exchanging the focused pane and the next one moves both sessions, and no other; the same
/// session stays active. With two panes, doing so twice changes nothing that is shown.
pub proof fn exchanged_panes_keep_their_sessions(m: WorkspaceModel, pane: int)
    requires
        m.wf(),
        m.mode != SplitMode::Single,
        0 <= pane < m.panes.len(),
    ensures
        ({
            let r = m.swapped();
            let next = if m.focused + 1 < m.panes.len() {
                m.focused + 1
            } else {
                0
            };
            &&& active_session(r) == active_session(m)
            &&& r.focused == next
            &&& session_in(r, next) == session_in(m, m.focused as int)
            &&& session_in(r, m.focused as int) == session_in(m, next)
            &&& pane != next && pane != m.focused ==> session_in(r, pane) == session_in(m, pane)
            &&& m.panes.len() == 2 ==> r.swapped().panes == m.panes && r.swapped().focused
                == m.focused
        }),
{
    let r = m.swapped();
    let n = m.panes.len() as int;
    assert((m.focused + 1) % n == (if m.focused + 1 < n {
        m.focused + 1
    } else {
        0
    })) by (nonlinear_arith)
        requires
            0 <= m.focused < n,
    ;
    if n == 2 {
        assert((r.focused + 1) % n == m.focused) by (nonlinear_arith)
            requires
                n == 2,
                r.focused == 1 - m.focused,
                0 <= m.focused < 2,
        ;
        assert(r.swapped().panes =~= m.panes);
    }
}

/// A session that is called for is active: in its pane where it has one, alone otherwise.
pub proof fn a_session_that_is_called_for_is_active(m: WorkspaceModel, id: usize)
    requires
        m.wf(),
        m.ids.contains(id),
        m.ids.len() <= usize::MAX,
    ensures
        active_session(m.activated(Some(id))) == id,
        m.activated(Some(id)).ids == m.ids,
        session_in(m.activated(Some(id)), m.activated(Some(id)).focused as int) == id,
        m.activated(None) == m,
{
    lemma_place(m.ids, id, 0);
    let k = choose|k: int| 0 <= k < m.ids.len() && m.ids[k] == id;
    assert(m.ids[k] == id);
    let index = place_of(m.ids, id, 0)->0;
    lemma_place(m.panes, index as usize, 0);
}

/// Without a split there is one pane, with the active session, and no tab changes.
pub proof fn one_pane_shows_the_active_session(m: WorkspaceModel)
    requires
        m.wf(),
    ensures
        m.unsplit().panes == seq![m.active],
        m.unsplit().mode == SplitMode::Single,
        !m.unsplit().zoomed,
        m.unsplit().ids == m.ids,
        active_session(m.unsplit()) == active_session(m),
{
}

} // verus!
