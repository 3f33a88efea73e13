//! Tabs and panes: which sessions there are, which are shown, and which has the focus.

use crate::panes::{
    directional_pane_target, moved_divider, neighbour, resize_divider_target, PaneDirection,
    SplitMode, MAX_PANES,
};
use vstd::prelude::*;

pub mod laws;

verus! {

/// The first place of a value at or after a position.
pub open spec fn place_of(s: Seq<usize>, value: usize, from: int) -> Option<int>
    decreases s.len() - from,
{
    if from >= s.len() {
        None
    } else if s[from] == value {
        Some(from)
    } else {
        place_of(s, value, from + 1)
    }
}

/// What became of the shares of the panes.
#[derive(Debug, Clone, Copy, PartialEq, Eq, Structural)]
pub enum Shares {
    Keep,
    /// One pane has all.
    Single,
    /// Two panes have the same.
    Halves,
    /// A pane gives half of its share to a new one behind it.
    Inserted(usize),
    /// A pane's share goes to its neighbour.
    Removed(usize),
}

/// What is to be done after a change.
#[derive(Debug, Clone, Copy, PartialEq, Eq, Structural)]
pub struct Effects {
    /// Every session gets the size of its place.
    pub relayout: bool,
    /// What is kept of the active session is renewed.
    pub refresh: bool,
    /// The sessions are saved.
    pub save: bool,
    pub shares: Shares,
}

impl Effects {
    pub open spec fn none() -> Self {
        Effects { relayout: false, refresh: false, save: false, shares: Shares::Keep }
    }

    /// One change after another.
    pub open spec fn followed_by(self, next: Self) -> Self {
        Effects {
            relayout: self.relayout || next.relayout,
            refresh: self.refresh || next.refresh,
            save: self.save || next.save,
            shares: if next.shares == Shares::Keep {
                self.shares
            } else {
                next.shares
            },
        }
    }

    fn nothing() -> (e: Self)
        ensures
            e == Effects::none(),
    {
        Effects { relayout: false, refresh: false, save: false, shares: Shares::Keep }
    }

    fn and_then(self, next: Self) -> (e: Self)
        ensures
            e == self.followed_by(next),
    {
        Effects {
            relayout: self.relayout || next.relayout,
            refresh: self.refresh || next.refresh,
            save: self.save || next.save,
            shares: if next.shares == Shares::Keep {
                self.shares
            } else {
                next.shares
            },
        }
    }
}

/// The tabs and panes.
#[verifier::ext_equal]
pub struct WorkspaceModel {
    /// The identity of each session, in the order of the tabs.
    pub ids: Seq<usize>,
    pub active: usize,
    pub next_id: usize,
    pub mode: SplitMode,
    /// The session in each pane.
    pub panes: Seq<usize>,
    pub focused: usize,
    /// Whether the focused pane fills the area for now.
    pub zoomed: bool,
    pub hovered_divider: Option<usize>,
    pub dragging_divider: Option<usize>,
    /// By the identity of a session.
    pub hovered_tab: Option<usize>,
    pub dragging_tab: Option<usize>,
    pub tab_menu: Option<usize>,
    /// Whether something changed that is saved.
    pub dirty: bool,
}

/// A place once the one at `index` is gone.
pub open spec fn shifted(place: usize, index: usize) -> usize {
    if place > index {
        (place - 1) as usize
    } else {
        place
    }
}

/// Places once the one at `index` is gone.
pub open spec fn all_shifted(places: Seq<usize>, index: usize) -> Seq<usize> {
    Seq::new(places.len(), |i: int| shifted(places[i], index))
}

/// A place once the session at `from` is moved to `to`.
pub open spec fn moved_place(place: usize, from: usize, to: usize) -> usize {
    if place == from {
        to
    } else if from < place <= to {
        (place - 1) as usize
    } else if to <= place < from {
        (place + 1) as usize
    } else {
        place
    }
}

/// Identities once the session at `from` is moved to `to`.
pub open spec fn moved_ids(ids: Seq<usize>, from: usize, to: usize) -> Seq<usize> {
    ids.remove(from as int).insert(to as int, ids[from as int])
}

pub open spec fn all_moved(places: Seq<usize>, from: usize, to: usize) -> Seq<usize> {
    Seq::new(places.len(), |i: int| moved_place(places[i], from, to))
}

impl WorkspaceModel {
    /// The active session is the one in the focused pane; every pane shows a session of
    /// its own; sessions have identities of their own.
    pub open spec fn wf(self) -> bool {
        &&& self.active < self.ids.len()
        &&& self.ids.no_duplicates()
        &&& forall|i: int| 0 <= i < self.ids.len() ==> #[trigger] self.ids[i] < self.next_id
        &&& self.focused < self.panes.len()
        &&& self.panes[self.focused as int] == self.active
        &&& self.panes.no_duplicates()
        &&& forall|i: int| 0 <= i < self.panes.len() ==> #[trigger] self.panes[i] < self.ids.len()
        &&& self.panes.len() <= MAX_PANES
        &&& self.mode == SplitMode::Single <==> self.panes.len() == 1
        &&& self.zoomed ==> self.mode != SplitMode::Single
    }

    /// One pane with the active session.
    pub open spec fn unsplit(self) -> Self {
        WorkspaceModel {
            zoomed: false,
            hovered_divider: None,
            dragging_divider: None,
            mode: SplitMode::Single,
            panes: seq![self.active],
            focused: 0,
            ..self
        }
    }

    /// What going back to one pane takes.
    pub open spec fn unsplit_effects(self) -> Effects {
        Effects {
            relayout: self.mode != SplitMode::Single,
            refresh: false,
            save: false,
            shares: Shares::Single,
        }
    }

    /// Another session is shown, alone.
    pub open spec fn shown(self, index: usize) -> Self {
        WorkspaceModel { active: index, ..self }.unsplit()
    }

    /// A new session at a place among the tabs, shown alone.
    pub open spec fn added(self, at: usize) -> Self {
        WorkspaceModel {
            ids: self.ids.insert(at as int, self.next_id),
            next_id: (self.next_id + 1) as usize,
            active: at,
            dirty: false,
            ..self
        }.unsplit()
    }

    /// The panes once the session at `index` is gone from the tabs: its pane goes too,
    /// and the focus to the pane before. With one pane left there is no split.
    pub open spec fn pruned(self, index: usize) -> Self {
        if self.mode == SplitMode::Single {
            WorkspaceModel { panes: seq![self.active], focused: 0, ..self }
        } else {
            let pos = place_of(self.panes, index, 0);
            let panes = all_shifted(
                if pos is Some {
                    self.panes.remove(pos->0)
                } else {
                    self.panes
                },
                index,
            );
            let focused = if pos is Some && self.focused >= pos->0 && self.focused > 0 {
                (self.focused - 1) as usize
            } else {
                self.focused
            };
            if panes.len() < 2 {
                WorkspaceModel {
                    active: panes[0],
                    mode: SplitMode::Single,
                    panes: seq![panes[0]],
                    focused: 0,
                    zoomed: false,
                    hovered_divider: None,
                    dragging_divider: None,
                    ..self
                }
            } else {
                WorkspaceModel { panes, focused, active: panes[focused as int], ..self }
            }
        }
    }

    /// What that takes.
    pub open spec fn pruned_effects(self, index: usize) -> Effects {
        let pos = place_of(self.panes, index, 0);
        Effects {
            relayout: self.mode != SplitMode::Single,
            refresh: false,
            save: false,
            shares: if self.mode == SplitMode::Single || (pos is Some && self.panes.len() <= 2) {
                Shares::Single
            } else if pos is Some {
                Shares::Removed(pos->0 as usize)
            } else {
                Shares::Keep
            },
        }
    }

    /// The tabs and panes once the session at `index` is closed. Nothing happens where
    /// there is none; closing the only one ends it all.
    pub open spec fn closed(self, index: usize) -> Self {
        if index >= self.ids.len() {
            self
        } else if self.ids.len() == 1 {
            WorkspaceModel { dirty: false, ..self }
        } else {
            let id = self.ids[index as int];
            WorkspaceModel {
                ids: self.ids.remove(index as int),
                hovered_tab: without(self.hovered_tab, id),
                dragging_tab: without(self.dragging_tab, id),
                tab_menu: without(self.tab_menu, id),
                active: if self.active >= self.ids.len() - 1 {
                    (self.ids.len() - 2) as usize
                } else {
                    shifted(self.active, index)
                },
                dirty: false,
                ..self
            }.pruned(index)
        }
    }

    pub open spec fn closed_effects(self, index: usize) -> Effects {
        if index >= self.ids.len() {
            Effects::none()
        } else if self.ids.len() == 1 {
            Effects { relayout: false, refresh: false, save: true, shares: Shares::Keep }
        } else {
            Effects { refresh: true, save: true, ..self.pruned_effects(index) }
        }
    }

    pub open spec fn closing(self, index: usize) -> Closing {
        if index >= self.ids.len() {
            Closing::Nothing
        } else if self.ids.len() == 1 {
            Closing::Quit
        } else {
            Closing::Removed(index)
        }
    }

    /// A session that is to be the active one: in its pane where it has one, alone
    /// otherwise. Nothing happens where it is gone.
    pub open spec fn activated(self, id: Option<usize>) -> Self {
        match id {
            None => self,
            Some(id) => match place_of(self.ids, id, 0) {
                None => self,
                Some(index) => match place_of(self.panes, index as usize, 0) {
                    Some(pos) => WorkspaceModel {
                        focused: pos as usize,
                        active: index as usize,
                        dirty: false,
                        ..self
                    },
                    None => WorkspaceModel { dirty: false, ..self.shown(index as usize) },
                },
            },
        }
    }

    pub open spec fn activated_effects(self, id: Option<usize>) -> Effects {
        match id {
            None => Effects::none(),
            Some(id) => match place_of(self.ids, id, 0) {
                None => Effects::none(),
                Some(index) => match place_of(self.panes, index as usize, 0) {
                    Some(pos) => Effects { refresh: true, save: true, ..Effects::none() },
                    None => Effects { refresh: true, save: true, ..self.unsplit_effects() },
                },
            },
        }
    }

    /// The session at `from` moved to `to`. The same session stays active, and each pane
    /// shows the one that it showed.
    pub open spec fn reordered(self, from: usize, to: usize) -> Self {
        if from >= self.ids.len() || to >= self.ids.len() || from == to {
            self
        } else {
            WorkspaceModel {
                ids: moved_ids(self.ids, from, to),
                active: moved_place(self.active, from, to),
                panes: all_moved(self.panes, from, to),
                dirty: false,
                ..self
            }
        }
    }

    /// The focus on another pane.
    pub open spec fn focused_on(self, pane: usize) -> Self {
        WorkspaceModel { focused: pane, active: self.panes[pane as int], ..self }
    }

    /// A session shown in the focused pane, or the focus on the pane that shows it.
    pub open spec fn shown_in_pane(self, index: usize) -> Self {
        match place_of(self.panes, index, 0) {
            Some(pos) => WorkspaceModel {
                focused: pos as usize,
                active: index,
                dirty: true,
                ..self
            },
            None => WorkspaceModel {
                panes: self.panes.update(self.focused as int, index),
                active: index,
                dirty: true,
                ..self
            },
        }
    }

    /// The focused pane and the next one exchanged; the focus goes along.
    pub open spec fn swapped(self) -> Self {
        if self.mode == SplitMode::Single {
            self
        } else {
            let other = (self.focused + 1) % (self.panes.len() as int);
            WorkspaceModel {
                panes: self.panes.update(
                    self.focused as int,
                    self.panes[other],
                ).update(other, self.panes[self.focused as int]),
                focused: other as usize,
                dirty: false,
                ..self
            }
        }
    }

    /// A new session in a new pane behind the focused one.
    pub open spec fn split_added(self, mode: SplitMode) -> Self {
        let index = self.ids.len() as usize;
        WorkspaceModel {
            ids: self.ids.push(self.next_id),
            next_id: (self.next_id + 1) as usize,
            mode: if self.mode == SplitMode::Single {
                mode
            } else {
                self.mode
            },
            panes: self.panes.insert(self.focused + 1, index),
            focused: (self.focused + 1) as usize,
            active: index,
            zoomed: false,
            dirty: false,
            ..self
        }
    }
}

/// An identity, but for one that is gone.
pub open spec fn without(id: Option<usize>, gone: usize) -> Option<usize> {
    if id == Some(gone) {
        None
    } else {
        id
    }
}

/// What closing a session comes to.
#[derive(Debug, Clone, Copy, PartialEq, Eq, Structural)]
pub enum Closing {
    Nothing,
    /// The session at this place ends and is gone.
    Removed(usize),
    /// The only session ends, and the window with it.
    Quit,
}

/// The tabs and panes.
#[derive(Debug)]
pub struct Workspace {
    pub ids: Vec<usize>,
    pub active: usize,
    pub next_id: usize,
    pub split_mode: SplitMode,
    pub panes: Vec<usize>,
    pub focused_pane: usize,
    pub pane_zoomed: bool,
    pub hovered_divider: Option<usize>,
    pub dragging_divider: Option<usize>,
    pub hovered_tab: Option<usize>,
    pub dragging_tab: Option<usize>,
    pub tab_menu: Option<usize>,
    pub session_dirty: bool,
}

impl View for Workspace {
    type V = WorkspaceModel;

    open spec fn view(&self) -> WorkspaceModel {
        WorkspaceModel {
            ids: self.ids@,
            active: self.active,
            next_id: self.next_id,
            mode: self.split_mode,
            panes: self.panes@,
            focused: self.focused_pane,
            zoomed: self.pane_zoomed,
            hovered_divider: self.hovered_divider,
            dragging_divider: self.dragging_divider,
            hovered_tab: self.hovered_tab,
            dragging_tab: self.dragging_tab,
            tab_menu: self.tab_menu,
            dirty: self.session_dirty,
        }
    }
}

pub(crate) proof fn lemma_place(s: Seq<usize>, value: usize, from: int)
    requires
        0 <= from,
    ensures
        match place_of(s, value, from) {
            Some(i) => from <= i < s.len() && s[i] == value && forall|k: int|
                from <= k < i ==> s[k] != value,
            None => forall|k: int| from <= k < s.len() ==> s[k] != value,
        },
    decreases s.len() - from,
{
    if from < s.len() && s[from] != value {
        lemma_place(s, value, from + 1);
    }
}

fn find_place(s: &Vec<usize>, value: usize) -> (at: Option<usize>)
    ensures
        at is Some <==> place_of(s@, value, 0) is Some,
        at matches Some(i) ==> place_of(s@, value, 0) == Some(i as int) && i < s@.len() && s@[i as int]
            == value,
        at is None ==> forall|k: int| 0 <= k < s@.len() ==> s@[k] != value,
{
    let mut i: usize = 0;
    while i < s.len()
        invariant
            i <= s@.len(),
            place_of(s@, value, i as int) == place_of(s@, value, 0),
            forall|k: int| 0 <= k < i ==> s@[k] != value,
        decreases s@.len() - i,
    {
        if s[i] == value {
            return Some(i);
        }
        i = i + 1;
    }
    None
}

impl Workspace {
    /// Some sessions, with identities from zero on, one of them shown.
    pub fn new(count: usize, active: usize) -> (w: Self)
        requires
            active < count,
        ensures
            w@.wf(),
            w@ == (WorkspaceModel {
                ids: Seq::new(count as nat, |i: int| i as usize),
                active,
                next_id: count,
                mode: SplitMode::Single,
                panes: seq![active],
                focused: 0,
                zoomed: false,
                hovered_divider: None,
                dragging_divider: None,
                hovered_tab: None,
                dragging_tab: None,
                tab_menu: None,
                dirty: true,
            }),
    {
        let mut ids: Vec<usize> = Vec::new();
        let mut i: usize = 0;
        while i < count
            invariant
                i <= count,
                ids@ =~= Seq::new(i as nat, |k: int| k as usize),
            decreases count - i,
        {
            ids.push(i);
            i = i + 1;
        }
        Workspace {
            ids,
            active,
            next_id: count,
            split_mode: SplitMode::Single,
            panes: vec![active],
            focused_pane: 0,
            pane_zoomed: false,
            hovered_divider: None,
            dragging_divider: None,
            hovered_tab: None,
            dragging_tab: None,
            tab_menu: None,
            session_dirty: true,
        }
    }

    /// Where the session of an identity is.
    pub fn position(&self, id: usize) -> (at: Option<usize>)
        ensures
            at is Some <==> place_of(self@.ids, id, 0) is Some,
            at matches Some(i) ==> place_of(self@.ids, id, 0) == Some(i as int) && i
                < self@.ids.len(),
    {
        find_place(&self.ids, id)
    }

    /// The pane that shows the session at a place.
    pub fn pane_of(&self, index: usize) -> (pane: Option<usize>)
        ensures
            pane is Some <==> place_of(self@.panes, index, 0) is Some,
            pane matches Some(p) ==> place_of(self@.panes, index, 0) == Some(p as int) && p
                < self@.panes.len(),
    {
        find_place(&self.panes, index)
    }

    /// One pane with the active session.
    pub fn unsplit(&mut self) -> (effects: Effects)
        requires
            old(self)@.active < old(self)@.ids.len(),
        ensures
            final(self)@ == old(self)@.unsplit(),
            effects == old(self)@.unsplit_effects(),
            old(self)@.ids.no_duplicates() && (forall|i: int|
                0 <= i < old(self)@.ids.len() ==> #[trigger] old(self)@.ids[i]
                    < old(self)@.next_id) ==> final(self)@.wf(),
    {
        let relayout = self.split_mode != SplitMode::Single;
        self.pane_zoomed = false;
        self.hovered_divider = None;
        self.dragging_divider = None;
        self.split_mode = SplitMode::Single;
        self.focused_pane = 0;
        self.panes = vec![self.active];
        proof {
            assert(self@ =~= old(self)@.unsplit());
        }
        Effects { relayout, refresh: false, save: false, shares: Shares::Single }
    }

    /// Takes in a session that was started, behind the active one.
    pub fn session_added(&mut self) -> (effects: Effects)
        requires
            old(self)@.wf(),
            old(self)@.next_id < usize::MAX,
        ensures
            final(self)@.wf(),
            final(self)@ == old(self)@.added((old(self)@.active + 1) as usize),
            effects == (Effects { refresh: true, save: true, ..old(self)@.unsplit_effects() }),
    {
        let count: usize = self.ids.len();
        let at: usize = if self.active < count {
            self.active + 1
        } else {
            count
        };
        self.add_at(at)
    }

    /// Takes in a session that was started as the double of another, behind it. Nothing
    /// happens where the other is gone.
    pub fn session_duplicated(&mut self, of: usize) -> (effects: Effects)
        requires
            old(self)@.wf(),
            old(self)@.next_id < usize::MAX,
            of < old(self)@.ids.len(),
        ensures
            final(self)@.wf(),
            final(self)@ == old(self)@.added((of + 1) as usize),
            effects == (Effects { refresh: true, save: true, ..old(self)@.unsplit_effects() }),
    {
        let count: usize = self.ids.len();
        let at: usize = if of < count {
            of + 1
        } else {
            count
        };
        self.add_at(at)
    }

    fn add_at(&mut self, at: usize) -> (effects: Effects)
        requires
            old(self)@.wf(),
            old(self)@.next_id < usize::MAX,
            at <= old(self)@.ids.len(),
        ensures
            final(self)@.wf(),
            final(self)@ == old(self)@.added(at),
            effects == (Effects { refresh: true, save: true, ..old(self)@.unsplit_effects() }),
    {
        let id: usize = self.next_id;
        self.ids.insert(at, id);
        self.next_id = id + 1;
        self.active = at;
        self.session_dirty = false;
        let effects = self.unsplit();
        proof {
            let ids = old(self)@.ids;
            let all = self@.ids;
            assert forall|i: int| 0 <= i < all.len() implies #[trigger] all[i] < self@.next_id by {
                if i < at {
                    assert(all[i] == ids[i]);
                } else if i > at {
                    assert(all[i] == ids[i - 1]);
                }
            }
            assert forall|i: int, j: int| 0 <= i < all.len() && 0 <= j < all.len() && i
                != j implies all[i] != all[j] by {
                let a = if i < at {
                    i
                } else {
                    i - 1
                };
                let b = if j < at {
                    j
                } else {
                    j - 1
                };
                if i != at && j != at {
                    assert(all[i] == ids[a] && all[j] == ids[b]);
                } else if i == at {
                    assert(all[j] == ids[b]);
                } else {
                    assert(all[i] == ids[a]);
                }
            }
            assert(self@ =~= old(self)@.added(at));
        }
        Effects { relayout: effects.relayout, refresh: true, save: true, shares: effects.shares }
    }
}

/// One step round a ring, and one back.
proof fn lemma_round(a: int, n: int)
    requires
        0 <= a < n,
    ensures
        (a + 1) % n == (if a + 1 == n {
            0
        } else {
            a + 1
        }),
        (a + n - 1) % n == (if a == 0 {
            n - 1
        } else {
            a - 1
        }),
{
    if a + 1 == n {
        vstd::arithmetic::div_mod::lemma_mod_self_0(n);
    } else {
        vstd::arithmetic::div_mod::lemma_small_mod((a + 1) as nat, n as nat);
    }
    if a == 0 {
        vstd::arithmetic::div_mod::lemma_small_mod((n - 1) as nat, n as nat);
    } else {
        vstd::arithmetic::div_mod::lemma_mod_add_multiples_vanish(a - 1, n);
        vstd::arithmetic::div_mod::lemma_small_mod((a - 1) as nat, n as nat);
    }
}

fn clear_if(id: Option<usize>, gone: usize) -> (kept: Option<usize>)
    ensures
        kept == without(id, gone),
{
    match id {
        Some(id) => {
            if id == gone {
                None
            } else {
                Some(id)
            }
        },
        None => None,
    }
}

/// Places without one, once it is gone.
fn shift_all(places: &Vec<usize>, index: usize) -> (after: Vec<usize>)
    ensures
        after@ == all_shifted(places@, index),
{
    let mut after: Vec<usize> = Vec::new();
    let mut i: usize = 0;
    while i < places.len()
        invariant
            i <= places@.len(),
            after@ =~= all_shifted(places@.subrange(0, i as int), index),
        decreases places@.len() - i,
    {
        let place: usize = places[i];
        after.push(
            if place > index {
                place - 1
            } else {
                place
            },
        );
        i = i + 1;
    }
    proof {
        assert(places@.subrange(0, i as int) =~= places@);
    }
    after
}

proof fn lemma_shifted(places: Seq<usize>, index: usize, count: int)
    requires
        places.no_duplicates(),
        forall|i: int| 0 <= i < places.len() ==> #[trigger] places[i] < count,
        forall|i: int| 0 <= i < places.len() ==> #[trigger] places[i] != index,
        index < count,
    ensures
        all_shifted(places, index).no_duplicates(),
        forall|i: int|
            0 <= i < places.len() ==> #[trigger] all_shifted(places, index)[i] < count - 1,
{
    let after = all_shifted(places, index);
    assert forall|i: int| 0 <= i < places.len() implies #[trigger] after[i] < count - 1 by {
        assert(places[i] < count && places[i] != index);
    }
    assert forall|i: int, j: int| 0 <= i < after.len() && 0 <= j < after.len() && i
        != j implies after[i] != after[j] by {
        assert(places[i] != places[j]);
        assert(places[i] != index && places[j] != index);
    }
}

impl Workspace {
    /// Drops the pane of a session that is gone from the tabs.
    fn prune_closed_pane(&mut self, index: usize) -> (effects: Effects)
        requires
            old(self)@.ids.no_duplicates(),
            forall|i: int|
                0 <= i < old(self)@.ids.len() ==> #[trigger] old(self)@.ids[i]
                    < old(self)@.next_id,
            old(self)@.active < old(self)@.ids.len(),
            index <= old(self)@.ids.len(),
            old(self)@.focused < old(self)@.panes.len() <= MAX_PANES,
            old(self)@.panes.no_duplicates(),
            forall|i: int|
                0 <= i < old(self)@.panes.len() ==> #[trigger] old(self)@.panes[i]
                    <= old(self)@.ids.len(),
            old(self)@.mode == SplitMode::Single <==> old(self)@.panes.len() == 1,
            old(self)@.zoomed ==> old(self)@.mode != SplitMode::Single,
        ensures
            final(self)@.wf(),
            final(self)@ == old(self)@.pruned(index),
            effects == old(self)@.pruned_effects(index),
    {
        if self.split_mode == SplitMode::Single {
            self.panes = vec![self.active];
            self.focused_pane = 0;
            proof {
                assert(self@ =~= old(self)@.pruned(index));
            }
            return Effects { relayout: false, refresh: false, save: false, shares: Shares::Single };
        }
        let mut shares = Shares::Keep;
        let ghost before = self@.panes;
        let ghost kept = match place_of(before, index, 0) {
            Some(pos) => before.remove(pos),
            None => before,
        };
        proof {
            lemma_place(before, index, 0);
        }
        if let Some(pos) = find_place(&self.panes, index) {
            let _ = self.panes.remove(pos);
            shares = Shares::Removed(pos);
            if self.focused_pane >= pos && self.focused_pane > 0 {
                self.focused_pane = self.focused_pane - 1;
            }
            proof {
                assert forall|i: int| 0 <= i < kept.len() implies #[trigger] kept[i] != index
                    && kept[i] < self@.ids.len() + 1 by {
                    if i < pos {
                        assert(kept[i] == before[i]);
                    } else {
                        assert(kept[i] == before[i + 1]);
                    }
                    assert(before[pos as int] == index);
                }
                assert forall|i: int, j: int| 0 <= i < kept.len() && 0 <= j < kept.len() && i
                    != j implies kept[i] != kept[j] by {
                    let a = if i < pos {
                        i
                    } else {
                        i + 1
                    };
                    let b = if j < pos {
                        j
                    } else {
                        j + 1
                    };
                    assert(kept[i] == before[a] && kept[j] == before[b]);
                }
            }
        }
        proof {
            lemma_shifted(kept, index, (self@.ids.len() + 1) as int);
        }
        self.panes = shift_all(&self.panes, index);
        if self.panes.len() < 2 {
            let survivor: usize = self.panes[0];
            self.active = survivor;
            self.split_mode = SplitMode::Single;
            self.panes = vec![survivor];
            self.focused_pane = 0;
            self.pane_zoomed = false;
            self.hovered_divider = None;
            self.dragging_divider = None;
            shares = Shares::Single;
            proof {
                assert(self@ =~= old(self)@.pruned(index));
            }
        } else {
            self.active = self.panes[self.focused_pane];
            proof {
                assert(self@ =~= old(self)@.pruned(index));
            }
        }
        Effects { relayout: true, refresh: false, save: false, shares }
    }

    /// Closes the session at a place. Says what ends, and what is to be done.
    pub fn close_session(&mut self, index: usize) -> (outcome: (Closing, Effects))
        requires
            old(self)@.wf(),
        ensures
            final(self)@.wf(),
            final(self)@ == old(self)@.closed(index),
            outcome.0 == old(self)@.closing(index),
            outcome.1 == old(self)@.closed_effects(index),
    {
        let count: usize = self.ids.len();
        if index >= count {
            return (Closing::Nothing, Effects::nothing());
        }
        if count == 1 {
            self.session_dirty = false;
            proof {
                assert(self@ =~= old(self)@.closed(index));
            }
            return (
                Closing::Quit,
                Effects { relayout: false, refresh: false, save: true, shares: Shares::Keep },
            );
        }
        let ghost ids = self@.ids;
        let id: usize = self.ids.remove(index);
        self.hovered_tab = clear_if(self.hovered_tab, id);
        self.dragging_tab = clear_if(self.dragging_tab, id);
        self.tab_menu = clear_if(self.tab_menu, id);
        if self.active >= count - 1 {
            self.active = count - 2;
        } else if index < self.active {
            self.active = self.active - 1;
        }
        self.session_dirty = false;
        proof {
            let all = self@.ids;
            assert forall|i: int| 0 <= i < all.len() implies #[trigger] all[i] < self@.next_id by {
                assert(all[i] == (if i < index {
                    ids[i]
                } else {
                    ids[i + 1]
                }));
            }
            assert forall|i: int, j: int| 0 <= i < all.len() && 0 <= j < all.len() && i
                != j implies all[i] != all[j] by {
                let a = if i < index {
                    i
                } else {
                    i + 1
                };
                let b = if j < index {
                    j
                } else {
                    j + 1
                };
                assert(all[i] == ids[a] && all[j] == ids[b]);
            }
            assert forall|i: int| 0 <= i < self@.panes.len() implies #[trigger] self@.panes[i]
                <= self@.ids.len() by {
                assert(old(self)@.panes[i] < ids.len());
            }
        }
        let effects = self.prune_closed_pane(index);
        proof {
            assert(self@ =~= old(self)@.closed(index));
        }
        (
            Closing::Removed(index),
            Effects { relayout: effects.relayout, refresh: true, save: true, shares: effects.shares },
        )
    }

    /// Makes a session the active one, in its pane where it has one, alone otherwise.
    pub fn activate(&mut self, id: Option<usize>) -> (effects: Effects)
        requires
            old(self)@.wf(),
        ensures
            final(self)@.wf(),
            final(self)@ == old(self)@.activated(id),
            effects == old(self)@.activated_effects(id),
    {
        let id: usize = match id {
            Some(id) => id,
            None => {
                return Effects::nothing();
            },
        };
        let index: usize = match self.position(id) {
            Some(index) => index,
            None => {
                return Effects::nothing();
            },
        };
        if let Some(pos) = find_place(&self.panes, index) {
            self.focused_pane = pos;
            self.active = index;
            self.session_dirty = false;
            proof {
                assert(self@ =~= old(self)@.activated(Some(id)));
            }
            return Effects { relayout: false, refresh: true, save: true, shares: Shares::Keep };
        }
        self.active = index;
        let effects = self.unsplit();
        self.session_dirty = false;
        proof {
            assert(self@ =~= old(self)@.activated(Some(id)));
        }
        Effects { relayout: effects.relayout, refresh: true, save: true, shares: effects.shares }
    }

    /// Closes a session, then makes another the active one.
    pub fn close_session_then(&mut self, index: usize, activate_after: Option<usize>) -> (outcome: (
        Closing,
        Effects,
    ))
        requires
            old(self)@.wf(),
        ensures
            final(self)@.wf(),
            final(self)@ == old(self)@.closed(index).activated(activate_after),
            outcome.0 == old(self)@.closing(index),
            outcome.1 == old(self)@.closed_effects(index).followed_by(
                old(self)@.closed(index).activated_effects(activate_after),
            ),
    {
        let (closing, effects) = self.close_session(index);
        let more = self.activate(activate_after);
        (closing, effects.and_then(more))
    }

    /// Shows another session alone.
    fn show(&mut self, index: usize) -> (effects: Effects)
        requires
            old(self)@.wf(),
            index < old(self)@.ids.len(),
        ensures
            final(self)@.wf(),
            final(self)@ == (WorkspaceModel { dirty: true, ..old(self)@.shown(index) }),
            effects == (Effects { refresh: true, ..old(self)@.unsplit_effects() }),
    {
        self.active = index;
        self.session_dirty = true;
        let effects = self.unsplit();
        proof {
            assert(self@ =~= (WorkspaceModel { dirty: true, ..old(self)@.shown(index) }));
        }
        Effects { relayout: effects.relayout, refresh: true, save: false, shares: effects.shares }
    }

    /// The next tab; the first after the last.
    pub fn next_session(&mut self) -> (effects: Effects)
        requires
            old(self)@.wf(),
        ensures
            final(self)@.wf(),
            final(self)@ == (WorkspaceModel {
                dirty: true,
                ..old(self)@.shown(((old(self)@.active + 1) % (old(self)@.ids.len() as int)) as usize)
            }),
            effects == (Effects { refresh: true, ..old(self)@.unsplit_effects() }),
    {
        let count: usize = self.ids.len();
        let next: usize = if self.active < count - 1 {
            self.active + 1
        } else {
            0
        };
        proof {
            lemma_round(self.active as int, count as int);
        }
        self.show(next)
    }

    /// The tab before; the last before the first.
    pub fn prev_session(&mut self) -> (effects: Effects)
        requires
            old(self)@.wf(),
        ensures
            final(self)@.wf(),
            final(self)@ == (WorkspaceModel {
                dirty: true,
                ..old(self)@.shown(
                    ((old(self)@.active + old(self)@.ids.len() - 1) % (old(self)@.ids.len() as int)) as usize,
                )
            }),
            effects == (Effects { refresh: true, ..old(self)@.unsplit_effects() }),
    {
        let count: usize = self.ids.len();
        let before: usize = if self.active > 0 {
            self.active - 1
        } else {
            count - 1
        };
        proof {
            lemma_round(self.active as int, count as int);
        }
        self.show(before)
    }

    /// The tab at a place. Nothing happens where there is none.
    pub fn jump_session(&mut self, index: usize) -> (effects: Effects)
        requires
            old(self)@.wf(),
        ensures
            final(self)@.wf(),
            final(self)@ == (if index < old(self)@.ids.len() {
                WorkspaceModel { dirty: true, ..old(self)@.shown(index) }
            } else {
                old(self)@
            }),
            effects == (if index < old(self)@.ids.len() {
                Effects { refresh: true, ..old(self)@.unsplit_effects() }
            } else {
                Effects::none()
            }),
    {
        if index < self.ids.len() {
            self.show(index)
        } else {
            Effects::nothing()
        }
    }
}

proof fn lemma_moved(places: Seq<usize>, from: usize, to: usize, count: int)
    requires
        places.no_duplicates(),
        forall|i: int| 0 <= i < places.len() ==> #[trigger] places[i] < count,
        from < count,
        to < count,
    ensures
        all_moved(places, from, to).no_duplicates(),
        forall|i: int| 0 <= i < places.len() ==> #[trigger] all_moved(places, from, to)[i] < count,
{
    let after = all_moved(places, from, to);
    assert forall|i: int| 0 <= i < places.len() implies #[trigger] after[i] < count by {
        assert(places[i] < count);
    }
    assert forall|i: int, j: int| 0 <= i < after.len() && 0 <= j < after.len() && i
        != j implies after[i] != after[j] by {
        assert(places[i] != places[j]);
    }
}

/// Each session is found at its new place.
proof fn lemma_moved_ids(ids: Seq<usize>, from: usize, to: usize)
    requires
        ids.no_duplicates(),
        from < ids.len(),
        to < ids.len(),
        ids.len() <= usize::MAX,
    ensures
        moved_ids(ids, from, to).len() == ids.len(),
        forall|i: usize|
            i < ids.len() ==> moved_ids(ids, from, to)[#[trigger] moved_place(i, from, to) as int]
                == ids[i as int],
        forall|k: int|
            0 <= k < ids.len() ==> #[trigger] moved_ids(ids, from, to)[k] == ids[moved_place(
                k as usize,
                to,
                from,
            ) as int],
        moved_ids(ids, from, to).no_duplicates(),
{
    let rest = ids.remove(from as int);
    let after = moved_ids(ids, from, to);
    assert forall|i: usize| i < ids.len() implies after[#[trigger] moved_place(i, from, to) as int]
        == ids[i as int] by {
        let k = moved_place(i, from, to) as int;
        if i == from {
            assert(after[to as int] == ids[from as int]);
        } else {
            let r = if i < from {
                i as int
            } else {
                i - 1
            };
            assert(rest[r] == ids[i as int]);
            if r < to {
                assert(k == r);
                assert(after[r] == rest[r]);
            } else {
                assert(k == r + 1);
                assert(after[r + 1] == rest[r]);
            }
        }
    }
    assert forall|k: int| 0 <= k < ids.len() implies #[trigger] moved_ids(ids, from, to)[k]
        == ids[moved_place(k as usize, to, from) as int] by {
        let i = moved_place(k as usize, to, from);
        assert(moved_place(i, from, to) == k);
    }
    assert forall|a: int, b: int| 0 <= a < after.len() && 0 <= b < after.len() && a
        != b implies after[a] != after[b] by {
        let i = moved_place(a as usize, to, from);
        let j = moved_place(b as usize, to, from);
        assert(after[a] == ids[i as int] && after[b] == ids[j as int]);
        assert(i != j);
    }
}

/// A moved session is found at its new place, and all stays well-formed.
pub(crate) proof fn lemma_reordered(m: WorkspaceModel, from: usize, to: usize)
    requires
        m.wf(),
        from < m.ids.len(),
        to < m.ids.len(),
        m.ids.len() <= usize::MAX,
    ensures
        m.reordered(from, to).wf(),
        forall|i: usize|
            i < m.ids.len() ==> moved_ids(m.ids, from, to)[#[trigger] moved_place(
                i,
                from,
                to,
            ) as int] == m.ids[i as int],
        moved_ids(m.ids, from, to).len() == m.ids.len(),
{
    lemma_moved_ids(m.ids, from, to);
    lemma_moved(m.panes, from, to, m.ids.len() as int);
    let after = m.reordered(from, to);
    if from != to {
        assert forall|k: int| 0 <= k < after.ids.len() implies #[trigger] after.ids[k]
            < after.next_id by {
            let i = moved_place(k as usize, to, from);
            assert(m.ids[i as int] < m.next_id);
        }
    }
}

fn move_place(place: usize, from: usize, to: usize) -> (after: usize)
    requires
        from != to,
    ensures
        after == moved_place(place, from, to),
{
    if place == from {
        to
    } else if from < place && to >= place {
        place - 1
    } else if from > place && to <= place {
        place + 1
    } else {
        place
    }
}

fn move_all(places: &Vec<usize>, from: usize, to: usize) -> (after: Vec<usize>)
    requires
        from != to,
    ensures
        after@ == all_moved(places@, from, to),
{
    let mut after: Vec<usize> = Vec::new();
    let mut i: usize = 0;
    while i < places.len()
        invariant
            i <= places@.len(),
            from != to,
            after@ =~= all_moved(places@.subrange(0, i as int), from, to),
        decreases places@.len() - i,
    {
        after.push(move_place(places[i], from, to));
        i = i + 1;
    }
    proof {
        assert(places@.subrange(0, i as int) =~= places@);
    }
    after
}

/// What asking for a split comes to.
#[derive(Debug, Clone, Copy, PartialEq, Eq, Structural)]
pub enum SplitRequest {
    /// The panes lie along the other axis now.
    Rotated(Effects),
    /// There are as many panes as there may be.
    LimitReached,
    /// A session is to be started for the new pane; see [`Workspace::split_added`].
    Spawn,
}

impl Workspace {
    /// Moves a tab to another place.
    pub fn reorder_session(&mut self, from: usize, to: usize) -> (effects: Effects)
        requires
            old(self)@.wf(),
        ensures
            final(self)@.wf(),
            final(self)@ == old(self)@.reordered(from, to),
            effects == (if from < old(self)@.ids.len() && to < old(self)@.ids.len() && from != to {
                Effects { refresh: true, save: true, ..Effects::none() }
            } else {
                Effects::none()
            }),
    {
        let count: usize = self.ids.len();
        if from >= count || to >= count || from == to {
            return Effects::nothing();
        }
        proof {
            lemma_reordered(self@, from, to);
        }
        let ghost before = self@;
        let id: usize = self.ids.remove(from);
        self.ids.insert(to, id);
        self.active = move_place(self.active, from, to);
        self.panes = move_all(&self.panes, from, to);
        self.session_dirty = false;
        proof {
            assert(self@ =~= before.reordered(from, to));
        }
        Effects { relayout: false, refresh: true, save: true, shares: Shares::Keep }
    }

    /// Splits the area: a new pane, or the panes along the other axis where they lie
    /// along one already.
    pub fn request_split(&mut self, mode: SplitMode) -> (request: SplitRequest)
        requires
            old(self)@.wf(),
            mode != SplitMode::Single,
        ensures
            final(self)@.wf(),
            final(self)@ == (if old(self)@.mode != SplitMode::Single && old(self)@.mode != mode {
                WorkspaceModel { mode, dirty: false, ..old(self)@ }
            } else {
                old(self)@
            }),
            request == (if old(self)@.mode != SplitMode::Single && old(self)@.mode != mode {
                SplitRequest::Rotated(
                    Effects { relayout: true, refresh: true, save: true, shares: Shares::Keep },
                )
            } else if old(self)@.panes.len() >= MAX_PANES {
                SplitRequest::LimitReached
            } else {
                SplitRequest::Spawn
            }),
    {
        if self.split_mode != SplitMode::Single && self.split_mode != mode {
            self.split_mode = mode;
            self.session_dirty = false;
            proof {
                assert(self@ =~= (WorkspaceModel { mode, dirty: false, ..old(self)@ }));
            }
            return SplitRequest::Rotated(
                Effects { relayout: true, refresh: true, save: true, shares: Shares::Keep },
            );
        }
        if self.panes.len() >= MAX_PANES {
            SplitRequest::LimitReached
        } else {
            SplitRequest::Spawn
        }
    }

    /// Takes in a session that was started for a new pane, behind the focused one.
    pub fn split_added(&mut self, mode: SplitMode) -> (effects: Effects)
        requires
            old(self)@.wf(),
            old(self)@.next_id < usize::MAX,
            old(self)@.panes.len() < MAX_PANES,
            mode != SplitMode::Single,
        ensures
            final(self)@.wf(),
            final(self)@ == old(self)@.split_added(mode),
            effects == (Effects {
                relayout: true,
                refresh: true,
                save: true,
                shares: if old(self)@.mode == SplitMode::Single {
                    Shares::Halves
                } else {
                    Shares::Inserted(old(self)@.focused)
                },
            }),
    {
        let ghost before = self@;
        let id: usize = self.next_id;
        let index: usize = self.ids.len();
        let at: usize = self.focused_pane;
        self.ids.push(id);
        self.next_id = id + 1;
        let shares = if self.split_mode == SplitMode::Single {
            self.split_mode = mode;
            Shares::Halves
        } else {
            Shares::Inserted(at)
        };
        self.panes.insert(at + 1, index);
        self.focused_pane = at + 1;
        self.active = index;
        self.pane_zoomed = false;
        self.session_dirty = false;
        proof {
            assert(self@ =~= before.split_added(mode));
            let all = self@.panes;
            assert forall|i: int| 0 <= i < all.len() implies #[trigger] all[i]
                < self@.ids.len() by {
                if i <= at {
                    assert(all[i] == before.panes[i]);
                } else if i > at + 1 {
                    assert(all[i] == before.panes[i - 1]);
                }
            }
            assert forall|i: int, j: int| 0 <= i < all.len() && 0 <= j < all.len() && i
                != j implies all[i] != all[j] by {
                let a = if i <= at {
                    i
                } else {
                    i - 1
                };
                let b = if j <= at {
                    j
                } else {
                    j - 1
                };
                if i != at + 1 {
                    assert(all[i] == before.panes[a]);
                }
                if j != at + 1 {
                    assert(all[j] == before.panes[b]);
                }
            }
            assert forall|i: int| 0 <= i < self@.ids.len() implies #[trigger] self@.ids[i]
                < self@.next_id by {
                if i < before.ids.len() {
                    assert(self@.ids[i] == before.ids[i]);
                }
            }
            assert(self@.ids.no_duplicates()) by {
                assert forall|i: int, j: int| 0 <= i < self@.ids.len() && 0 <= j < self@.ids.len()
                    && i != j implies self@.ids[i] != self@.ids[j] by {
                    if i < before.ids.len() {
                        assert(self@.ids[i] == before.ids[i]);
                    }
                    if j < before.ids.len() {
                        assert(self@.ids[j] == before.ids[j]);
                    }
                }
            }
        }
        Effects { relayout: true, refresh: true, save: true, shares }
    }

    /// The focus on the next pane; the first after the last.
    pub fn focus_next_pane(&mut self) -> (effects: Effects)
        requires
            old(self)@.wf(),
        ensures
            final(self)@.wf(),
            final(self)@ == (if old(self)@.mode == SplitMode::Single {
                old(self)@
            } else {
                old(self)@.focused_on(
                    ((old(self)@.focused + 1) % (old(self)@.panes.len() as int)) as usize,
                )
            }),
            effects == (Effects {
                refresh: old(self)@.mode != SplitMode::Single,
                ..Effects::none()
            }),
    {
        if self.split_mode == SplitMode::Single {
            return Effects::nothing();
        }
        proof {
            lemma_round(self.focused_pane as int, self.panes@.len() as int);
        }
        let next: usize = if self.focused_pane < self.panes.len() - 1 {
            self.focused_pane + 1
        } else {
            0
        };
        self.focus_on(next);
        Effects { relayout: false, refresh: true, save: false, shares: Shares::Keep }
    }

    /// The focus on the pane before; the last before the first.
    pub fn focus_prev_pane(&mut self) -> (effects: Effects)
        requires
            old(self)@.wf(),
        ensures
            final(self)@.wf(),
            final(self)@ == (if old(self)@.mode == SplitMode::Single {
                old(self)@
            } else {
                old(self)@.focused_on(
                    ((old(self)@.focused + old(self)@.panes.len() - 1) % (
                    old(self)@.panes.len() as int)) as usize,
                )
            }),
            effects == (Effects {
                refresh: old(self)@.mode != SplitMode::Single,
                ..Effects::none()
            }),
    {
        if self.split_mode == SplitMode::Single {
            return Effects::nothing();
        }
        proof {
            lemma_round(self.focused_pane as int, self.panes@.len() as int);
        }
        let before: usize = if self.focused_pane > 0 {
            self.focused_pane - 1
        } else {
            self.panes.len() - 1
        };
        self.focus_on(before);
        Effects { relayout: false, refresh: true, save: false, shares: Shares::Keep }
    }

    fn focus_on(&mut self, pane: usize)
        requires
            old(self)@.wf(),
            pane < old(self)@.panes.len(),
        ensures
            final(self)@.wf(),
            final(self)@ == old(self)@.focused_on(pane),
    {
        self.focused_pane = pane;
        self.active = self.panes[pane];
        proof {
            assert(self@ =~= old(self)@.focused_on(pane));
        }
    }

    /// The focus on the pane in a direction, where there is one.
    pub fn focus_pane_direction(&mut self, direction: PaneDirection) -> (effects: Effects)
        requires
            old(self)@.wf(),
        ensures
            final(self)@.wf(),
            ({
                let m = old(self)@;
                let target = neighbour(
                    m.mode,
                    m.focused as int,
                    m.panes.len() as int,
                    direction,
                );
                &&& final(self)@ == (match target {
                    Some(pane) => m.focused_on(pane as usize),
                    None => m,
                })
                &&& effects == (Effects { refresh: target is Some, ..Effects::none() })
            }),
    {
        match directional_pane_target(
            self.split_mode,
            self.focused_pane,
            self.panes.len(),
            direction,
        ) {
            Some(pane) => {
                self.focus_on(pane);
                Effects { relayout: false, refresh: true, save: false, shares: Shares::Keep }
            },
            None => Effects::nothing(),
        }
    }

    /// The focus on a pane that was pressed, if there is such a pane.
    pub fn press_pane(&mut self, pane: usize) -> (effects: Effects)
        requires
            old(self)@.wf(),
        ensures
            final(self)@.wf(),
            final(self)@ == (if pane < old(self)@.panes.len() {
                WorkspaceModel { dirty: true, ..old(self)@.focused_on(pane) }
            } else {
                old(self)@
            }),
            effects == (Effects {
                refresh: pane < old(self)@.panes.len(),
                ..Effects::none()
            }),
    {
        if pane < self.panes.len() {
            self.focus_on(pane);
            self.session_dirty = true;
            proof {
                assert(self@ =~= (WorkspaceModel { dirty: true, ..old(self)@.focused_on(pane) }));
            }
            Effects { relayout: false, refresh: true, save: false, shares: Shares::Keep }
        } else {
            Effects::nothing()
        }
    }

    /// Which divider an arrow moves, and whether towards the panes behind it.
    pub fn resize_target(&self, direction: PaneDirection) -> (target: Option<(usize, bool)>)
        requires
            self@.wf(),
        ensures
            ({
                let divider = moved_divider(
                    self@.mode,
                    self@.focused as int,
                    self@.panes.len() as int,
                    direction,
                );
                &&& target is Some <==> divider is Some
                &&& target matches Some(t) ==> divider == Some(t.0 as int)
                    && crate::panes::along_axis(self@.mode, direction) == Some(t.1) && t.0 + 1
                    < self@.panes.len()
            }),
    {
        match resize_divider_target(
            self.split_mode,
            self.focused_pane,
            self.panes.len(),
            direction,
        ) {
            Some(divider) => {
                match crate::panes::direction_along_axis(self.split_mode, direction) {
                    Some(forward) => Some((divider, forward)),
                    None => None,
                }
            },
            None => None,
        }
    }

    /// Shows a session in the focused pane, or puts the focus on the pane that shows it.
    pub fn show_session_in_focused_pane(&mut self, index: usize) -> (effects: Effects)
        requires
            old(self)@.wf(),
            index < old(self)@.ids.len(),
        ensures
            final(self)@.wf(),
            final(self)@ == old(self)@.shown_in_pane(index),
            effects == (Effects {
                relayout: true,
                refresh: true,
                save: false,
                shares: Shares::Keep,
            }),
    {
        let ghost before = self@;
        match find_place(&self.panes, index) {
            Some(pos) => {
                self.focused_pane = pos;
            },
            None => {
                self.panes.set(self.focused_pane, index);
            },
        }
        self.active = index;
        self.session_dirty = true;
        proof {
            assert(self@ =~= before.shown_in_pane(index));
        }
        Effects { relayout: true, refresh: true, save: false, shares: Shares::Keep }
    }

    /// The focused pane fills the area, or no longer. Nothing happens without a split.
    pub fn toggle_pane_zoom(&mut self) -> (effects: Effects)
        requires
            old(self)@.wf(),
        ensures
            final(self)@.wf(),
            final(self)@ == (if old(self)@.mode == SplitMode::Single {
                old(self)@
            } else {
                WorkspaceModel { zoomed: !old(self)@.zoomed, ..old(self)@ }
            }),
            effects == (if old(self)@.mode == SplitMode::Single {
                Effects::none()
            } else {
                Effects { relayout: true, refresh: true, save: false, shares: Shares::Keep }
            }),
    {
        if self.split_mode == SplitMode::Single {
            return Effects::nothing();
        }
        self.pane_zoomed = !self.pane_zoomed;
        Effects { relayout: true, refresh: true, save: false, shares: Shares::Keep }
    }

    /// Exchanges the focused pane with the next one.
    pub fn swap_panes(&mut self) -> (effects: Effects)
        requires
            old(self)@.wf(),
        ensures
            final(self)@.wf(),
            final(self)@ == old(self)@.swapped(),
            effects == (if old(self)@.mode == SplitMode::Single {
                Effects::none()
            } else {
                Effects { relayout: true, refresh: true, save: true, shares: Shares::Keep }
            }),
    {
        if self.split_mode == SplitMode::Single {
            return Effects::nothing();
        }
        let ghost before = self@;
        proof {
            lemma_round(self.focused_pane as int, self.panes@.len() as int);
        }
        let other: usize = if self.focused_pane < self.panes.len() - 1 {
            self.focused_pane + 1
        } else {
            0
        };
        let mine: usize = self.panes[self.focused_pane];
        let theirs: usize = self.panes[other];
        self.panes.set(self.focused_pane, theirs);
        self.panes.set(other, mine);
        self.focused_pane = other;
        self.session_dirty = false;
        proof {
            assert(self@ =~= before.swapped());
            let all = self@.panes;
            let f = before.focused as int;
            let o = other as int;
            assert forall|i: int, j: int| 0 <= i < all.len() && 0 <= j < all.len() && i
                != j implies all[i] != all[j] by {
                let a = if i == f {
                    o
                } else if i == o {
                    f
                } else {
                    i
                };
                let b = if j == f {
                    o
                } else if j == o {
                    f
                } else {
                    j
                };
                assert(all[i] == before.panes[a] && all[j] == before.panes[b]);
            }
            assert forall|i: int| 0 <= i < all.len() implies #[trigger] all[i]
                < self@.ids.len() by {
                assert(before.panes[f] < before.ids.len() && before.panes[o] < before.ids.len());
                if i != f && i != o {
                    assert(all[i] == before.panes[i]);
                }
            }
        }
        Effects { relayout: true, refresh: true, save: true, shares: Shares::Keep }
    }

    /// Which session closing the focused pane closes, and which is the active one then:
    /// that in the pane before, or in the next one where there is none.
    pub fn focused_pane_to_close(&self) -> (target: (usize, Option<usize>))
        requires
            self@.wf(),
        ensures
            target.0 == self@.active,
            target.1 == (if self@.mode == SplitMode::Single {
                None
            } else if self@.focused > 0 {
                Some(self@.ids[self@.panes[self@.focused - 1] as int])
            } else {
                Some(self@.ids[self@.panes[1] as int])
            }),
    {
        if self.split_mode == SplitMode::Single {
            return (self.active, None);
        }
        let pane: usize = if self.focused_pane > 0 {
            self.focused_pane - 1
        } else {
            1
        };
        proof {
            assert(self@.panes[pane as int] < self@.ids.len());
        }
        (self.active, Some(self.ids[self.panes[pane]]))
    }
}

} // verus!
