//! Tabs: their labels, asking before one is closed, closing several, moving them, and
//! what is kept of them for the next start.

use crate::panes::{SplitMode, MAX_PANES};
use crate::paths::{components, last_name};
use crate::text::{
    append_decimal, append_text, chars_of, decimal_text, is_text, owned, same_text, string_of,
    trim, trimmed,
};
use crate::workspace::{
    moved_ids, moved_place, place_of, Closing, Effects, Shares, Workspace, WorkspaceModel,
};
use vstd::prelude::*;

verus! {

/// No more sessions are started again from what was kept.
pub const MAX_RESTORED_SESSIONS: usize = 32;

/// The short form of a working directory: the home directory's sign, or its last name.
pub open spec fn directory_name(cwd: Seq<char>, home: Option<Seq<char>>) -> Option<Seq<char>> {
    let parts = components(cwd);
    if home == Some(cwd) {
        Some("~"@)
    } else if parts.len() > 0 && parts.last() != ".."@ && parts.last() != "."@
        && parts.last().len() > 0 {
        Some(parts.last())
    } else {
        None
    }
}

pub fn cwd_basename(cwd: &str, home: Option<&str>) -> (name: Option<String>)
    ensures
        name is Some <==> directory_name(cwd@, opt_view(home)) is Some,
        name matches Some(name) ==> directory_name(cwd@, opt_view(home)) == Some(name@),
{
    if let Some(home) = home {
        if same_text(cwd, home) {
            return Some(owned("~"));
        }
    }
    let name = last_name(cwd, "");
    proof {
        reveal_strlit("");
    }
    if chars_of(name.as_str()).len() == 0 {
        None
    } else {
        Some(name)
    }
}

pub open spec fn opt_view(s: Option<&str>) -> Option<Seq<char>> {
    match s {
        Some(s) => Some(s@),
        None => None,
    }
}

/// The label of a tab: the window title where the program set one; else the program
/// in the foreground and the working directory, as far as they are known; else a number.
pub open spec fn label_of(
    title: Seq<char>,
    process: Option<Seq<char>>,
    directory: Option<Seq<char>>,
    id: int,
) -> Seq<char> {
    if trimmed(title).len() > 0 {
        trimmed(title)
    } else {
        match (process, directory) {
            (Some(p), Some(d)) => p + " · "@ + d,
            (Some(p), None) => p,
            (None, Some(d)) => d,
            (None, None) => "Session "@ + decimal_text((id + 1) as nat),
        }
    }
}

/// A label of at most `most` characters: one that is longer ends in an ellipsis.
pub open spec fn cut_label(label: Seq<char>, most: int) -> Seq<char> {
    if label.len() > most {
        label.subrange(0, most - 1).push('\u{2026}')
    } else {
        label
    }
}

pub fn shortened_label(label: &str, most: usize) -> (shown: String)
    requires
        most > 0,
    ensures
        shown@ == cut_label(label@, most as int),
        shown@.len() <= most,
{
    let chars = chars_of(label);
    if chars.len() > most {
        let mut shown = string_of(vstd::slice::slice_subrange(chars.as_slice(), 0, most - 1));
        shown.push('\u{2026}');
        shown
    } else {
        string_of(chars.as_slice())
    }
}

/// The label of a tab.
pub fn tab_label(
    title: &str,
    process: Option<&str>,
    cwd: Option<&str>,
    home: Option<&str>,
    id: usize,
) -> (label: String)
    requires
        id < usize::MAX,
    ensures
        label@ == label_of(
            title@,
            opt_view(process),
            match cwd {
                Some(cwd) => directory_name(cwd@, opt_view(home)),
                None => None,
            },
            id as int,
        ),
{
    let chars = chars_of(title);
    let title = trim(chars.as_slice());
    if title.len() > 0 {
        return string_of(title);
    }
    let directory = match cwd {
        Some(cwd) => cwd_basename(cwd, home),
        None => None,
    };
    match process {
        Some(process) => {
            let mut label = owned(process);
            if let Some(directory) = directory {
                append_text(&mut label, " · ");
                append_text(&mut label, directory.as_str());
            }
            label
        },
        None => {
            match directory {
                Some(directory) => directory,
                None => {
                    let mut label = owned("Session ");
                    append_decimal(&mut label, (id + 1) as u64);
                    label
                },
            }
        },
    }
}

/// Whether the foreground program is to be named: not where it is the shell itself, or
/// another shell.
pub open spec fn named_process(group: int, child: int, name: Seq<char>) -> Option<Seq<char>> {
    let p = trimmed(name);
    if group <= 0 || p.len() == 0 || group == child || p == "bash"@ || p == "zsh"@ || p == "fish"@
        || p == "sh"@ || p == "dash"@ || p == "ksh"@ || p == "tcsh"@ {
        None
    } else {
        Some(p)
    }
}

/// The foreground program of a terminal, from the process group in the foreground, the
/// shell's process, and the group's name.
pub fn foreground_process(group: i32, child: i32, name: &str) -> (process: Option<String>)
    ensures
        process is Some <==> named_process(group as int, child as int, name@) is Some,
        process matches Some(p) ==> named_process(group as int, child as int, name@) == Some(p@),
{
    if group <= 0 {
        return None;
    }
    let chars = chars_of(name);
    let p = trim(chars.as_slice());
    if p.len() == 0 || group == child {
        return None;
    }
    if is_text(p, "bash") || is_text(p, "zsh") || is_text(p, "fish") || is_text(p, "sh") || is_text(
        p,
        "dash",
    ) || is_text(p, "ksh") || is_text(p, "tcsh") {
        return None;
    }
    Some(string_of(p))
}

/// A tab that is only closed once the user says so, since a program runs in it.
#[derive(Debug, Clone, PartialEq, Eq)]
pub struct CloseConfirm {
    pub id: usize,
    pub process: String,
    pub activate_after: Option<usize>,
}

/// What asking to close a tab comes to.
#[derive(Debug)]
pub enum CloseRequest {
    /// The user is asked first.
    Confirm(CloseConfirm),
    Done(Closing, Effects),
}

impl Workspace {
    /// Closes a tab, unless a program runs in it.
    pub fn request_close_session_then(
        &mut self,
        index: usize,
        busy: Option<String>,
        activate_after: Option<usize>,
    ) -> (request: CloseRequest)
        requires
            old(self)@.wf(),
            busy is Some ==> index < old(self)@.ids.len(),
        ensures
            final(self)@.wf(),
            match busy {
                Some(name) => {
                    &&& final(self)@ == old(self)@
                    &&& request == CloseRequest::Confirm(
                        CloseConfirm {
                            id: old(self)@.ids[index as int],
                            process: name,
                            activate_after,
                        },
                    )
                },
                None => {
                    &&& final(self)@ == old(self)@.closed(index).activated(activate_after)
                    &&& request == CloseRequest::Done(
                        old(self)@.closing(index),
                        old(self)@.closed_effects(index).followed_by(
                            old(self)@.closed(index).activated_effects(activate_after),
                        ),
                    )
                },
            },
    {
        match busy {
            Some(process) => CloseRequest::Confirm(
                CloseConfirm { id: self.ids[index], process, activate_after },
            ),
            None => {
                let (closing, effects) = self.close_session_then(index, activate_after);
                CloseRequest::Done(closing, effects)
            },
        }
    }

    /// Closes a tab that the user was asked about. Nothing happens where it is gone.
    pub fn close_confirmed(&mut self, confirm: CloseConfirm) -> (outcome: (Closing, Effects))
        requires
            old(self)@.wf(),
        ensures
            final(self)@.wf(),
            match place_of(old(self)@.ids, confirm.id, 0) {
                Some(index) => {
                    let i = index as usize;
                    &&& final(self)@ == old(self)@.closed(i).activated(confirm.activate_after)
                    &&& outcome.0 == old(self)@.closing(i)
                    &&& outcome.1 == old(self)@.closed_effects(i).followed_by(
                        old(self)@.closed(i).activated_effects(confirm.activate_after),
                    )
                },
                None => {
                    &&& final(self)@ == old(self)@
                    &&& outcome == (Closing::Nothing, Effects::none())
                },
            },
    {
        match self.position(confirm.id) {
            Some(index) => self.close_session_then(index, confirm.activate_after),
            None => (
                Closing::Nothing,
                Effects { relayout: false, refresh: false, save: false, shares: Shares::Keep },
            ),
        }
    }
}

/// The first session at or after a place in which a program runs, but for one.
pub open spec fn first_busy(busy: Seq<Option<String>>, from: int, but: int) -> Option<int>
    decreases busy.len() - from,
{
    if from >= busy.len() {
        None
    } else if from != but && busy[from] is Some {
        Some(from)
    } else {
        first_busy(busy, from + 1, but)
    }
}

pub(crate) proof fn lemma_busy(busy: Seq<Option<String>>, from: int, but: int)
    requires
        0 <= from,
    ensures
        first_busy(busy, from, but) matches Some(i) ==> from <= i < busy.len() && busy[i] is Some,
    decreases busy.len() - from,
{
    if from < busy.len() && !(from != but && busy[from] is Some) {
        lemma_busy(busy, from + 1, but);
    }
}

fn find_busy(busy: &Vec<Option<String>>, from: usize, but: Option<usize>) -> (at: Option<usize>)
    requires
        from <= busy@.len(),
    ensures
        ({
            let skip = match but {
                Some(but) => but as int,
                None => -1,
            };
            &&& at is Some <==> first_busy(busy@, from as int, skip) is Some
            &&& at matches Some(i) ==> first_busy(busy@, from as int, skip) == Some(i as int) && i
                < busy@.len() && busy@[i as int] is Some
        }),
{
    let ghost skip = match but {
        Some(but) => but as int,
        None => -1,
    };
    let mut i: usize = from;
    while i < busy.len()
        invariant
            from <= i <= busy@.len(),
            skip == (match but {
                Some(but) => but as int,
                None => -1,
            }),
            first_busy(busy@, i as int, skip) == first_busy(busy@, from as int, skip),
        decreases busy@.len() - i,
    {
        let skipped = match but {
            Some(but) => i == but,
            None => false,
        };
        if !skipped && busy[i].is_some() {
            return Some(i);
        }
        i = i + 1;
    }
    None
}

/// Sessions closed one after another.
pub open spec fn close_each(m: WorkspaceModel, places: Seq<usize>) -> WorkspaceModel
    decreases places.len(),
{
    if places.len() == 0 {
        m
    } else {
        close_each(m, places.drop_last()).closed(places.last())
    }
}

/// What that comes to, one after another.
pub open spec fn close_log(m: WorkspaceModel, places: Seq<usize>) -> Seq<(Closing, Effects)>
    decreases places.len(),
{
    if places.len() == 0 {
        Seq::empty()
    } else {
        let before = close_each(m, places.drop_last());
        close_log(m, places.drop_last()).push(
            (before.closing(places.last()), before.closed_effects(places.last())),
        )
    }
}

/// The places from the last of `count` down to `from`, but for one.
pub open spec fn places_down(count: int, from: int, but: int) -> Seq<usize>
    decreases count - from,
{
    if count <= from {
        Seq::empty()
    } else if from == but {
        places_down(count, from + 1, but)
    } else {
        places_down(count, from + 1, but).push(from as usize)
    }
}

/// What closing several tabs comes to.
#[derive(Debug)]
pub enum BatchClose {
    /// The tab that it starts from is gone.
    Unknown,
    /// A program runs in one of them, at this place: it is shown, and nothing closed.
    Busy(usize, Effects),
    /// They are closed, one after another.
    Closed(Vec<(Closing, Effects)>),
}

impl Workspace {
    /// Shows a session alone.
    fn show_busy(&mut self, index: usize) -> (effects: Effects)
        requires
            old(self)@.wf(),
            index < old(self)@.ids.len(),
        ensures
            final(self)@.wf(),
            final(self)@ == old(self)@.shown(index),
            effects == (Effects { refresh: true, ..old(self)@.unsplit_effects() }),
    {
        self.active = index;
        let effects = self.unsplit();
        Effects { relayout: effects.relayout, refresh: true, save: false, shares: effects.shares }
    }

    /// Closes the sessions at the places from the last down to `from`, but for one.
    fn close_down(&mut self, from: usize, but: Option<usize>) -> (log: Vec<(Closing, Effects)>)
        requires
            old(self)@.wf(),
            from <= old(self)@.ids.len(),
        ensures
            final(self)@.wf(),
            ({
                let skip = match but {
                    Some(but) => but as int,
                    None => -1,
                };
                let places = places_down(old(self)@.ids.len() as int, from as int, skip);
                &&& final(self)@ == close_each(old(self)@, places)
                &&& log@ == close_log(old(self)@, places)
            }),
    {
        let ghost skip = match but {
            Some(but) => but as int,
            None => -1,
        };
        let mut log: Vec<(Closing, Effects)> = Vec::new();
        let count: usize = self.ids.len();
        let mut i: usize = count;
        while i > from
            invariant
                from <= i <= count,
                count == old(self)@.ids.len(),
                skip == (match but {
                    Some(but) => but as int,
                    None => -1,
                }),
                self@.wf(),
                self@ == close_each(old(self)@, places_down(count as int, i as int, skip)),
                log@ == close_log(old(self)@, places_down(count as int, i as int, skip)),
            decreases i,
        {
            i = i - 1;
            let skipped = match but {
                Some(but) => i == but,
                None => false,
            };
            if !skipped {
                proof {
                    let places = places_down(count as int, i + 1, skip);
                    assert(places.push(i).drop_last() =~= places);
                    assert(places.push(i).last() == i);
                }
                let (closing, effects) = self.close_session(i);
                log.push((closing, effects));
            }
        }
        log
    }

    /// Closes all tabs but one, unless a program runs in one of them. `busy` says for
    /// each session which program runs in it.
    pub fn close_others(&mut self, keep_id: usize, busy: &Vec<Option<String>>) -> (batch: BatchClose)
        requires
            old(self)@.wf(),
            busy@.len() == old(self)@.ids.len(),
        ensures
            final(self)@.wf(),
            match place_of(old(self)@.ids, keep_id, 0) {
                None => final(self)@ == old(self)@ && batch is Unknown,
                Some(keep) => match first_busy(busy@, 0, keep) {
                    Some(index) => {
                        &&& final(self)@ == old(self)@.shown(index as usize)
                        &&& batch == BatchClose::Busy(
                            index as usize,
                            Effects { refresh: true, ..old(self)@.unsplit_effects() },
                        )
                    },
                    None => {
                        let places = places_down(old(self)@.ids.len() as int, 0, keep);
                        &&& final(self)@ == close_each(old(self)@, places)
                        &&& batch is Closed
                        &&& batch->Closed_0@ == close_log(old(self)@, places)
                    },
                },
            },
    {
        let keep: usize = match self.position(keep_id) {
            Some(keep) => keep,
            None => {
                return BatchClose::Unknown;
            },
        };
        if let Some(index) = find_busy(busy, 0, Some(keep)) {
            return BatchClose::Busy(index, self.show_busy(index));
        }
        BatchClose::Closed(self.close_down(0, Some(keep)))
    }

    /// Closes all tabs behind one, unless a program runs in one of them.
    pub fn close_to_right(&mut self, anchor_id: usize, busy: &Vec<Option<String>>) -> (batch:
        BatchClose)
        requires
            old(self)@.wf(),
            busy@.len() == old(self)@.ids.len(),
        ensures
            final(self)@.wf(),
            match place_of(old(self)@.ids, anchor_id, 0) {
                None => final(self)@ == old(self)@ && batch is Unknown,
                Some(anchor) => match first_busy(busy@, anchor + 1, -1) {
                    Some(index) => {
                        &&& final(self)@ == old(self)@.shown(index as usize)
                        &&& batch == BatchClose::Busy(
                            index as usize,
                            Effects { refresh: true, ..old(self)@.unsplit_effects() },
                        )
                    },
                    None => {
                        let places = places_down(old(self)@.ids.len() as int, anchor + 1, -1);
                        &&& final(self)@ == close_each(old(self)@, places)
                        &&& batch is Closed
                        &&& batch->Closed_0@ == close_log(old(self)@, places)
                    },
                },
            },
    {
        let anchor: usize = match self.position(anchor_id) {
            Some(anchor) => anchor,
            None => {
                return BatchClose::Unknown;
            },
        };
        let count: usize = self.ids.len();
        let from: usize = if anchor < count {
            anchor + 1
        } else {
            count
        };
        if let Some(index) = find_busy(busy, from, None) {
            return BatchClose::Busy(index, self.show_busy(index));
        }
        BatchClose::Closed(self.close_down(from, None))
    }

    /// Asks to close the window: where a program runs in a session, that session is
    /// shown and nothing closed.
    pub fn request_window_close(&mut self, busy: &Vec<Option<String>>) -> (kept: Option<(
        usize,
        Effects,
    )>)
        requires
            old(self)@.wf(),
            busy@.len() == old(self)@.ids.len(),
        ensures
            final(self)@.wf(),
            match first_busy(busy@, 0, -1) {
                Some(index) => {
                    &&& final(self)@ == old(self)@.shown(index as usize)
                    &&& kept == Some(
                        (
                            index as usize,
                            Effects { refresh: true, ..old(self)@.unsplit_effects() },
                        ),
                    )
                },
                None => {
                    &&& final(self)@ == (WorkspaceModel { dirty: false, ..old(self)@ })
                    &&& kept is None
                },
            },
    {
        if let Some(index) = find_busy(busy, 0, None) {
            return Some((index, self.show_busy(index)));
        }
        self.session_dirty = false;
        None
    }

    /// A tab is taken hold of.
    pub fn start_tab_drag(&mut self, id: usize)
        requires
            old(self)@.wf(),
        ensures
            final(self)@.wf(),
            final(self)@ == (if place_of(old(self)@.ids, id, 0) is Some {
                WorkspaceModel { dragging_tab: Some(id), ..old(self)@ }
            } else {
                old(self)@
            }),
    {
        if self.position(id).is_some() {
            self.dragging_tab = Some(id);
        }
    }

    /// A tab is let go over another: it moves there. Over itself it is shown.
    pub fn end_tab_drag(&mut self, target_id: usize) -> (effects: Effects)
        requires
            old(self)@.wf(),
        ensures
            final(self)@.wf(),
            ({
                let m = WorkspaceModel { dragging_tab: None, ..old(self)@ };
                let source = match old(self)@.dragging_tab {
                    Some(id) => place_of(m.ids, id, 0),
                    None => None,
                };
                let target = place_of(m.ids, target_id, 0);
                if source is None || target is None {
                    final(self)@ == m && effects == Effects::none()
                } else if source == target {
                    &&& final(self)@ == (WorkspaceModel {
                        dirty: true,
                        ..m.shown(target->0 as usize)
                    })
                    &&& effects == (Effects { refresh: true, ..m.unsplit_effects() })
                } else {
                    &&& final(self)@ == m.reordered(source->0 as usize, target->0 as usize)
                    &&& effects == (Effects { refresh: true, save: true, ..Effects::none() })
                }
            }),
    {
        let dragged = self.dragging_tab;
        self.dragging_tab = None;
        let none = Effects { relayout: false, refresh: false, save: false, shares: Shares::Keep };
        let source: usize = match dragged {
            Some(id) => {
                match self.position(id) {
                    Some(source) => source,
                    None => {
                        return none;
                    },
                }
            },
            None => {
                return none;
            },
        };
        let target: usize = match self.position(target_id) {
            Some(target) => target,
            None => {
                return none;
            },
        };
        if source == target {
            self.jump_session(target)
        } else {
            self.reorder_session(source, target)
        }
    }

    /// A tab's menu is opened.
    pub fn open_tab_menu(&mut self, id: usize)
        requires
            old(self)@.wf(),
        ensures
            final(self)@.wf(),
            final(self)@ == (if place_of(old(self)@.ids, id, 0) is Some {
                WorkspaceModel { tab_menu: Some(id), ..old(self)@ }
            } else {
                old(self)@
            }),
    {
        if self.position(id).is_some() {
            self.tab_menu = Some(id);
        }
    }

    /// Goes to a session that was picked, in the focused pane. Nothing happens where it
    /// is active or gone.
    pub fn jump_to(&mut self, id: usize) -> (effects: Effects)
        requires
            old(self)@.wf(),
        ensures
            final(self)@.wf(),
            ({
                let at = place_of(old(self)@.ids, id, 0);
                if at is Some && at != Some(old(self)@.active as int) {
                    &&& final(self)@ == old(self)@.shown_in_pane(at->0 as usize)
                    &&& effects == (Effects {
                        relayout: true,
                        refresh: true,
                        save: false,
                        shares: Shares::Keep,
                    })
                } else {
                    final(self)@ == old(self)@ && effects == Effects::none()
                }
            }),
    {
        if let Some(index) = self.position(id) {
            if index != self.active {
                return self.show_session_in_focused_pane(index);
            }
        }
        Effects { relayout: false, refresh: false, save: false, shares: Shares::Keep }
    }
}

/// What is kept of a split: its axis, the session in each pane, and the focused pane.
#[derive(Debug, Clone, PartialEq, Eq)]
pub struct SavedSplit {
    pub mode: String,
    pub panes: Vec<usize>,
    pub focused: usize,
}

/// The name of an axis.
pub open spec fn axis_name(mode: SplitMode) -> Seq<char> {
    if mode == SplitMode::Horizontal {
        "horizontal"@
    } else {
        "vertical"@
    }
}

/// The axis of a name.
pub open spec fn named_axis(name: Seq<char>) -> Option<SplitMode> {
    if name == "vertical"@ {
        Some(SplitMode::Vertical)
    } else if name == "horizontal"@ {
        Some(SplitMode::Horizontal)
    } else {
        None
    }
}

/// Whether what was kept of a split makes sense for so many sessions: from two panes on,
/// each with a session of its own.
pub open spec fn usable_split(mode: Seq<char>, panes: Seq<usize>, focused: int, count: int) -> bool {
    &&& named_axis(mode) is Some
    &&& 2 <= panes.len() <= MAX_PANES
    &&& panes.no_duplicates()
    &&& forall|i: int| 0 <= i < panes.len() ==> #[trigger] panes[i] < count
    &&& focused < panes.len()
}

/// Whether no place occurs twice, and all are below a bound.
fn are_distinct_below(places: &Vec<usize>, count: usize) -> (v: bool)
    ensures
        v == (places@.no_duplicates() && forall|i: int|
            0 <= i < places@.len() ==> #[trigger] places@[i] < count),
{
    let mut i: usize = 0;
    while i < places.len()
        invariant
            i <= places@.len(),
            forall|a: int| 0 <= a < i ==> #[trigger] places@[a] < count,
            forall|a: int, b: int| 0 <= a < b < i ==> places@[a] != places@[b],
        decreases places@.len() - i,
    {
        if places[i] >= count {
            return false;
        }
        let mut j: usize = 0;
        while j < i
            invariant
                j <= i < places@.len(),
                forall|a: int| 0 <= a < j ==> places@[a] != places@[i as int],
            decreases i - j,
        {
            if places[j] == places[i] {
                return false;
            }
            j = j + 1;
        }
        i = i + 1;
    }
    proof {
        assert forall|a: int, b: int| 0 <= a < places@.len() && 0 <= b < places@.len() && a
            != b implies places@[a] != places@[b] by {
            if a > b {
                assert(places@[b] != places@[a]);
            }
        }
    }
    true
}

fn copy_places(places: &Vec<usize>) -> (copy: Vec<usize>)
    ensures
        copy@ == places@,
{
    let mut copy: Vec<usize> = Vec::new();
    let mut i: usize = 0;
    while i < places.len()
        invariant
            i <= places@.len(),
            copy@ =~= places@.subrange(0, i as int),
        decreases places@.len() - i,
    {
        copy.push(places[i]);
        i = i + 1;
    }
    proof {
        assert(places@.subrange(0, i as int) =~= places@);
    }
    copy
}

impl Workspace {
    /// What is kept of the split, if there is one.
    pub fn split_to_save(&self) -> (saved: Option<SavedSplit>)
        requires
            self@.wf(),
        ensures
            saved is Some <==> self@.mode != SplitMode::Single,
            saved matches Some(split) ==> split.mode@ == axis_name(self@.mode) && split.panes@
                == self@.panes && split.focused == self@.focused,
    {
        if self.split_mode == SplitMode::Single || self.panes.len() < 2 {
            return None;
        }
        let mode = if self.split_mode == SplitMode::Horizontal {
            owned("horizontal")
        } else {
            owned("vertical")
        };
        Some(SavedSplit { mode, panes: copy_places(&self.panes), focused: self.focused_pane })
    }

    /// Takes up a split that was kept, if it makes sense. Whether it does.
    pub fn restore_split(&mut self, split: &SavedSplit) -> (restored: bool)
        requires
            old(self)@.wf(),
            old(self)@.mode == SplitMode::Single,
        ensures
            final(self)@.wf(),
            restored == usable_split(
                split.mode@,
                split.panes@,
                split.focused as int,
                old(self)@.ids.len() as int,
            ),
            final(self)@ == (if restored {
                WorkspaceModel {
                    mode: named_axis(split.mode@)->0,
                    panes: split.panes@,
                    focused: split.focused,
                    active: split.panes@[split.focused as int],
                    ..old(self)@
                }
            } else {
                old(self)@
            }),
    {
        let mode = if same_text(split.mode.as_str(), "vertical") {
            SplitMode::Vertical
        } else if same_text(split.mode.as_str(), "horizontal") {
            SplitMode::Horizontal
        } else {
            return false;
        };
        let n: usize = split.panes.len();
        if n < 2 || n > MAX_PANES || split.focused >= n || !are_distinct_below(
            &split.panes,
            self.ids.len(),
        ) {
            return false;
        }
        self.split_mode = mode;
        self.panes = copy_places(&split.panes);
        self.focused_pane = split.focused;
        self.active = self.panes[self.focused_pane];
        true
    }
}

/// How many sessions are started again of those that were kept.
pub fn sessions_to_restore(kept: usize) -> (n: usize)
    ensures
        n == (if kept > MAX_RESTORED_SESSIONS {
            MAX_RESTORED_SESSIONS
        } else {
            kept
        }),
{
    if kept > MAX_RESTORED_SESSIONS {
        MAX_RESTORED_SESSIONS
    } else {
        kept
    }
}

/// Which session is the active one of those that were started again.
pub fn restored_active(active_index: Option<usize>, restored: usize) -> (active: usize)
    requires
        restored > 0,
    ensures
        active < restored,
        active == (match active_index {
            Some(i) => if i < restored {
                i as int
            } else {
                restored - 1
            },
            None => 0,
        }),
{
    match active_index {
        Some(i) => {
            if i < restored {
                i
            } else {
                restored - 1
            }
        },
        None => 0,
    }
}

/// A split that is kept is taken up again as it was, for as many sessions.
pub proof fn saved_splits_are_restored(m: WorkspaceModel)
    requires
        m.wf(),
        m.mode != SplitMode::Single,
    ensures
        usable_split(axis_name(m.mode), m.panes, m.focused as int, m.ids.len() as int),
        named_axis(axis_name(m.mode)) == Some(m.mode),
        m.panes[m.focused as int] == m.active,
{
    reveal_strlit("horizontal");
    reveal_strlit("vertical");
    assert("horizontal"@.len() == 10 && "vertical"@.len() == 8);
}

/// Moving a tab keeps what is shown: the same session is active, and each pane shows the
/// session that it showed. Moving it back restores the order.
pub proof fn reordering_keeps_what_is_shown(m: WorkspaceModel, from: usize, to: usize)
    requires
        m.wf(),
        from < m.ids.len(),
        to < m.ids.len(),
        m.ids.len() <= usize::MAX,
    ensures
        m.reordered(from, to).wf(),
        m.reordered(from, to).ids[m.reordered(from, to).active as int] == m.ids[m.active as int],
        m.reordered(from, to).panes.len() == m.panes.len(),
        forall|p: int|
            0 <= p < m.panes.len() ==> m.reordered(from, to).ids[#[trigger] m.reordered(
                from,
                to,
            ).panes[p] as int] == m.ids[m.panes[p] as int],
        m.reordered(from, to).reordered(to, from).ids == m.ids,
        m.reordered(from, to).reordered(to, from).panes == m.panes,
        m.reordered(from, to).reordered(to, from).active == m.active,
{
    let after = m.reordered(from, to);
    crate::workspace::lemma_reordered(m, from, to);
    if from != to {
        assert forall|p: int| 0 <= p < m.panes.len() implies after.ids[#[trigger] after.panes[p] as int]
            == m.ids[m.panes[p] as int] by {
            assert(m.panes[p] < m.ids.len());
            assert(after.panes[p] == moved_place(m.panes[p], from, to));
        }
        let back = after.reordered(to, from);
        assert(moved_place(m.active, from, to) == after.active);
        assert(moved_ids(moved_ids(m.ids, from, to), to, from) =~= m.ids);
        assert(back.panes =~= m.panes) by {
            assert forall|p: int| 0 <= p < m.panes.len() implies back.panes[p] == m.panes[p] by {
                assert(m.panes[p] < m.ids.len());
            }
        }
    }
}

/// Closing the last of several tabs takes its identity away.
proof fn lemma_closed_ids(m: WorkspaceModel, index: usize)
    requires
        index < m.ids.len(),
        m.ids.len() > 1,
    ensures
        m.closed(index).ids == m.ids.remove(index as int),
{
}

proof fn lemma_close_down(m: WorkspaceModel, from: int, but: int)
    requires
        0 <= from <= m.ids.len(),
        0 <= but < m.ids.len(),
        m.ids.len() <= usize::MAX,
    ensures
        close_each(m, places_down(m.ids.len() as int, from, but)).ids == (if but >= from {
            m.ids.subrange(0, from).push(m.ids[but])
        } else {
            m.ids.subrange(0, from)
        }),
    decreases m.ids.len() - from,
{
    let n = m.ids.len() as int;
    let places = places_down(n, from, but);
    if from >= n {
        assert(m.ids.subrange(0, from) =~= m.ids);
    } else {
        lemma_close_down(m, from + 1, but);
        let before = close_each(m, places_down(n, from + 1, but));
        if from == but {
            assert(m.ids.subrange(0, from + 1) =~= m.ids.subrange(0, from).push(m.ids[but]));
        } else {
            let rest = places_down(n, from + 1, but);
            assert(places.drop_last() =~= rest);
            assert(places.last() == from);
            assert(before.ids[from] == m.ids[from]);
            if before.ids.len() > 1 {
                lemma_closed_ids(before, from as usize);
                if but > from {
                    assert(before.ids.remove(from) =~= m.ids.subrange(0, from).push(m.ids[but]));
                } else {
                    assert(before.ids.remove(from) =~= m.ids.subrange(0, from));
                }
            } else {
                assert(before.ids.len() == from + 1 + (if but >= from + 1 {
                    1int
                } else {
                    0
                }));
                assert(false);
            }
        }
    }
}

/// Closing all tabs but one leaves that one; closing those behind one leaves the others,
/// in their order.
pub proof fn closing_several_leaves_the_others(m: WorkspaceModel, keep: int)
    requires
        m.wf(),
        0 <= keep < m.ids.len(),
        m.ids.len() <= usize::MAX,
    ensures
        close_each(m, places_down(m.ids.len() as int, 0, keep)).ids == seq![m.ids[keep]],
        close_each(m, places_down(m.ids.len() as int, keep + 1, -1)).ids == m.ids.subrange(
            0,
            keep + 1,
        ),
{
    lemma_close_down(m, 0, keep);
    assert(m.ids.subrange(0, 0).push(m.ids[keep]) =~= seq![m.ids[keep]]);
    lemma_close_down(m, keep + 1, 0);
    lemma_places_without(m.ids.len() as int, keep + 1, 0, -1);
}

/// Leaving out a place that does not occur changes nothing.
proof fn lemma_places_without(count: int, from: int, a: int, b: int)
    requires
        a < from,
        b < from,
    ensures
        places_down(count, from, a) == places_down(count, from, b),
    decreases count - from,
{
    if count > from {
        lemma_places_without(count, from + 1, a, b);
    }
}

/// A tab is labelled with the title that its program set, without blanks around it. Without
/// one it is the program and the directory with a dot between them, either where only one is
/// known, and otherwise the number of the session, counted from one.
pub proof fn tabs_are_labelled(
    title: Seq<char>,
    process: Seq<char>,
    directory: Seq<char>,
    id: nat,
)
    ensures
        trimmed(title).len() > 0 ==> label_of(title, Some(process), Some(directory), id as int)
            == trimmed(title),
        label_of(Seq::empty(), Some(process), Some(directory), id as int) == process + seq![
            ' ',
            '\u{b7}',
            ' ',
        ] + directory,
        label_of(Seq::empty(), Some(process), None, id as int) == process,
        label_of(Seq::empty(), None, Some(directory), id as int) == directory,
        label_of(Seq::empty(), None, None, id as int) == seq![
            'S',
            'e',
            's',
            's',
            'i',
            'o',
            'n',
            ' ',
        ] + decimal_text(id + 1),
{
    reveal_strlit(" · ");
    reveal_strlit("Session ");
    assert(" · "@ =~= seq![' ', '\u{b7}', ' ']);
    assert("Session "@ =~= seq!['S', 'e', 's', 's', 'i', 'o', 'n', ' ']);
    assert(trimmed(Seq::<char>::empty()).len() == 0);
}

/// A label that is too long is cut to the length that it may have, and ends in an ellipsis;
/// a shorter one stays.
pub proof fn long_labels_are_cut(label: Seq<char>, most: int, i: int)
    requires
        most > 0,
        0 <= i < label.len(),
    ensures
        label.len() <= most ==> cut_label(label, most) == label,
        label.len() > most ==> cut_label(label, most).len() == most && cut_label(label, most).last()
            == '\u{2026}' && (i < most - 1 ==> cut_label(label, most)[i] == label[i]),
{
}

/// A shell is no program that runs, nor is what has the shell's own process; any other
/// program is, by its name.
pub proof fn shells_do_not_count_as_running(group: int, child: int, name: Seq<char>)
    requires
        trimmed(name) == name,
        name.len() > 0,
        group > 0,
        group != child,
    ensures
        ({
            let shells = seq!["bash"@, "zsh"@, "fish"@, "sh"@, "dash"@, "ksh"@, "tcsh"@];
            &&& shells.contains(name) ==> named_process(group, child, name) is None
            &&& !shells.contains(name) ==> named_process(group, child, name) == Some(name)
            &&& named_process(group, group, name) is None
        }),
{
    let shells = seq!["bash"@, "zsh"@, "fish"@, "sh"@, "dash"@, "ksh"@, "tcsh"@];
    assert(shells[0] == "bash"@ && shells[1] == "zsh"@ && shells[2] == "fish"@ && shells[3]
        == "sh"@ && shells[4] == "dash"@ && shells[5] == "ksh"@ && shells[6] == "tcsh"@);
    if shells.contains(name) {
        let k = choose|k: int| 0 <= k < shells.len() && shells[k] == name;
        assert(0 <= k < 7);
    }
}

/// A split is saved under the name of its axis and read back as it was.
pub proof fn axes_are_read_back(mode: SplitMode)
    requires
        mode != SplitMode::Single,
    ensures
        named_axis(axis_name(mode)) == Some(mode),
        named_axis("vertical"@) == Some(SplitMode::Vertical),
        named_axis("horizontal"@) == Some(SplitMode::Horizontal),
{
    reveal_strlit("vertical");
    reveal_strlit("horizontal");
    assert("vertical"@.len() == 8 && "horizontal"@.len() == 10);
}

} // verus!
