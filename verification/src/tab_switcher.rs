//! Picking a tab by typing a part of its label, and text that is typed into a field.

use crate::keyboard::{
    chrome_shortcut, chrome_shortcut_of, is_control, is_control_char, ChromeShortcut, Key,
    Modifiers, Named,
};
use crate::outside::{fuzzy_match, fuzzy_score};
use crate::text::{append_text, chars_of, string_of, texts};
use vstd::prelude::*;

verus! {

/// The characters of a text that are no control codes.
pub open spec fn visible(s: Seq<char>) -> Seq<char>
    decreases s.len(),
{
    if s.len() == 0 {
        s
    } else if is_control(s.last()) {
        visible(s.drop_last())
    } else {
        visible(s.drop_last()).push(s.last())
    }
}

/// The characters of a text that are no control codes.
pub(crate) fn visible_text(text: &str) -> (shown: String)
    ensures
        shown@ == visible(text@),
{
    let chars = chars_of(text);
    let mut shown = String::new();
    let mut i: usize = 0;
    proof {
        assert(chars@.subrange(0, 0) =~= Seq::empty());
        assert(shown@ =~= visible(chars@.subrange(0, 0)));
    }
    while i < chars.len()
        invariant
            i <= chars@.len(),
            shown@ == visible(chars@.subrange(0, i as int)),
        decreases chars@.len() - i,
    {
        proof {
            assert(chars@.subrange(0, i + 1).drop_last() =~= chars@.subrange(0, i as int));
            assert(chars@.subrange(0, i + 1).last() == chars@[i as int]);
        }
        if !is_control_char(chars[i]) {
            shown.push(chars[i]);
        }
        i = i + 1;
    }
    proof {
        assert(chars@.subrange(0, i as int) =~= chars@);
    }
    shown
}

/// A text without its last character.
pub open spec fn shortened(s: Seq<char>) -> Seq<char> {
    if s.len() == 0 {
        s
    } else {
        s.drop_last()
    }
}

pub(crate) fn without_last(s: &str) -> (rest: String)
    ensures
        rest@ == shortened(s@),
{
    let chars = chars_of(s);
    if chars.len() == 0 {
        string_of(chars.as_slice())
    } else {
        let rest = string_of(vstd::slice::slice_subrange(chars.as_slice(), 0, chars.len() - 1));
        proof {
            assert(chars@.subrange(0, chars@.len() - 1) =~= s@.drop_last());
        }
        rest
    }
}

/// What a key press types into a field: nothing with Ctrl or Alt.
pub open spec fn typed(mods: Modifiers, text: Option<Seq<char>>) -> Seq<char> {
    if mods.control || mods.alt || text is None {
        Seq::empty()
    } else {
        visible(text->0)
    }
}

pub(crate) fn typed_text(mods: Modifiers, text: Option<&str>) -> (shown: String)
    ensures
        shown@ == typed(mods, crate::keyboard::opt_chars(text)),
{
    if !mods.control && !mods.alt {
        if let Some(text) = text {
            return visible_text(text);
        }
    }
    let shown = String::new();
    proof {
        assert(shown@ =~= Seq::empty());
    }
    shown
}

/// A place put behind all that match no worse.
pub open spec fn ranked(scores: Seq<Option<i64>>, listed: Seq<usize>, i: usize) -> Seq<usize>
    decreases listed.len(),
{
    if listed.len() == 0 || scores[listed.last() as int]->0 >= scores[i as int]->0 {
        listed.push(i)
    } else {
        ranked(scores, listed.drop_last(), i).push(listed.last())
    }
}

/// Those of the first `n` places that match, the best first.
pub open spec fn best_first(scores: Seq<Option<i64>>, n: int) -> Seq<usize>
    decreases n,
{
    if n <= 0 {
        Seq::empty()
    } else if scores[n - 1] is Some {
        ranked(scores, best_first(scores, n - 1), (n - 1) as usize)
    } else {
        best_first(scores, n - 1)
    }
}

/// How well a query matches each of some labels.
pub open spec fn label_scores(labels: Seq<Seq<char>>, query: Seq<char>) -> Seq<Option<i64>> {
    Seq::new(labels.len(), |i: int| fuzzy_score(labels[i], query))
}

/// The tabs that are listed: all of them in their order without a query, else those that
/// match it, the best first.
pub open spec fn listed_tabs(labels: Seq<Seq<char>>, query: Seq<char>) -> Seq<usize> {
    if query.len() == 0 {
        Seq::new(labels.len(), |i: int| i as usize)
    } else {
        best_first(label_scores(labels, query), labels.len() as int)
    }
}

/// Whether places come by their scores, those with the same score in their order.
pub open spec fn is_ranking(scores: Seq<Option<i64>>, listed: Seq<usize>) -> bool {
    &&& forall|a: int|
        0 <= a < listed.len() ==> #[trigger] listed[a] < scores.len()
            && scores[listed[a] as int] is Some
    &&& forall|a: int, b: int|
        0 <= a < b < listed.len() ==> (scores[#[trigger] listed[a] as int]->0
            > scores[#[trigger] listed[b] as int]->0 || (scores[listed[a] as int]->0
            == scores[listed[b] as int]->0 && listed[a] < listed[b]))
}

proof fn lemma_ranked(scores: Seq<Option<i64>>, listed: Seq<usize>, i: usize)
    requires
        is_ranking(scores, listed),
        i < scores.len(),
        scores[i as int] is Some,
        forall|a: int| 0 <= a < listed.len() ==> #[trigger] listed[a] < i,
    ensures
        is_ranking(scores, ranked(scores, listed, i)),
        ranked(scores, listed, i).len() == listed.len() + 1,
        ranked(scores, listed, i).contains(i),
        forall|p: usize|
            #[trigger] ranked(scores, listed, i).contains(p) <==> p == i || listed.contains(p),
        forall|a: int|
            0 <= a < listed.len() + 1 ==> #[trigger] ranked(scores, listed, i)[a] <= i,
    decreases listed.len(),
{
    let all = ranked(scores, listed, i);
    if listed.len() == 0 || scores[listed.last() as int]->0 >= scores[i as int]->0 {
        assert(all[listed.len() as int] == i);
        assert forall|a: int, b: int| 0 <= a < b < all.len() implies (
        scores[#[trigger] all[a] as int]->0 > scores[#[trigger] all[b] as int]->0 || (
        scores[all[a] as int]->0 == scores[all[b] as int]->0 && all[a] < all[b])) by {
            assert(all[a] == listed[a]);
            if b < listed.len() {
                assert(all[b] == listed[b]);
            } else {
                if a < listed.len() - 1 {
                    assert(listed[a] < i && listed[listed.len() - 1] < i);
                }
            }
        }
        assert forall|p: usize| #[trigger] all.contains(p) <==> p == i || listed.contains(p) by {
            if listed.contains(p) {
                let k = choose|k: int| 0 <= k < listed.len() && listed[k] == p;
                assert(all[k] == p);
            }
            if all.contains(p) && p != i {
                let k = choose|k: int| 0 <= k < all.len() && all[k] == p;
                assert(listed[k] == p);
            }
        }
    } else {
        let rest = listed.drop_last();
        let last = listed.last();
        assert forall|a: int| 0 <= a < rest.len() implies #[trigger] rest[a] < scores.len()
            && scores[rest[a] as int] is Some && rest[a] < i by {
            assert(rest[a] == listed[a]);
        }
        assert forall|a: int, b: int| 0 <= a < b < rest.len() implies (
        scores[#[trigger] rest[a] as int]->0 > scores[#[trigger] rest[b] as int]->0 || (
        scores[rest[a] as int]->0 == scores[rest[b] as int]->0 && rest[a] < rest[b])) by {
            assert(rest[a] == listed[a] && rest[b] == listed[b]);
        }
        lemma_ranked(scores, rest, i);
        let sub = ranked(scores, rest, i);
        assert(all =~= sub.push(last));
        assert(all[sub.len() as int] == last);
        assert(last == listed[listed.len() - 1] && last < i);
        assert forall|a: int, b: int| 0 <= a < b < all.len() implies (
        scores[#[trigger] all[a] as int]->0 > scores[#[trigger] all[b] as int]->0 || (
        scores[all[a] as int]->0 == scores[all[b] as int]->0 && all[a] < all[b])) by {
            assert(all[a] == sub[a]);
            if b < sub.len() {
                assert(all[b] == sub[b]);
            } else {
                assert(sub.contains(sub[a]));
                if sub[a] != i {
                    assert(rest.contains(sub[a]));
                    let k = choose|k: int| 0 <= k < rest.len() && rest[k] == sub[a];
                    assert(listed[k] == sub[a]);
                    assert(listed[listed.len() - 1] == last);
                }
            }
        }
        assert forall|p: usize| #[trigger] all.contains(p) <==> p == i || listed.contains(p) by {
            if listed.contains(p) {
                let k = choose|k: int| 0 <= k < listed.len() && listed[k] == p;
                if k < rest.len() {
                    assert(rest[k] == p);
                    assert(sub.contains(p));
                    let m = choose|m: int| 0 <= m < sub.len() && sub[m] == p;
                    assert(all[m] == p);
                }
            }
            if p == i {
                assert(sub.contains(i));
                let m = choose|m: int| 0 <= m < sub.len() && sub[m] == i;
                assert(all[m] == i);
            }
            if all.contains(p) && p != i {
                let k = choose|k: int| 0 <= k < all.len() && all[k] == p;
                if k < sub.len() {
                    assert(sub[k] == p);
                    assert(sub.contains(p));
                    assert(rest.contains(p));
                    let m = choose|m: int| 0 <= m < rest.len() && rest[m] == p;
                    assert(listed[m] == p);
                } else {
                    assert(listed[listed.len() - 1] == p);
                }
            }
        }
        assert(all.contains(i));
        assert forall|a: int| 0 <= a < all.len() implies #[trigger] all[a] <= i by {
            if a < sub.len() {
                assert(all[a] == sub[a]);
            }
        }
    }
}

/// Exactly the places that match are listed, the best first, and those that match as
/// well in their order.
pub proof fn the_best_come_first(scores: Seq<Option<i64>>, n: int)
    requires
        0 <= n <= scores.len(),
        scores.len() <= usize::MAX,
    ensures
        is_ranking(scores, best_first(scores, n)),
        forall|p: usize|
            #[trigger] best_first(scores, n).contains(p) <==> p < n && scores[p as int] is Some,
        forall|a: int| 0 <= a < best_first(scores, n).len() ==> #[trigger] best_first(scores, n)[a] < n,
    decreases n,
{
    if n > 0 {
        the_best_come_first(scores, n - 1);
        let before = best_first(scores, n - 1);
        let all = best_first(scores, n);
        if scores[n - 1] is Some {
            lemma_ranked(scores, before, (n - 1) as usize);
            assert forall|p: usize| #[trigger] all.contains(p) <==> p < n
                && scores[p as int] is Some by {
                assert(all.contains(p) <==> p == n - 1 || before.contains(p));
                assert(before.contains(p) <==> p < n - 1 && scores[p as int] is Some);
            }
        } else {
            assert forall|p: usize| #[trigger] all.contains(p) <==> p < n
                && scores[p as int] is Some by {
                assert(before.contains(p) <==> p < n - 1 && scores[p as int] is Some);
            }
        }
    }
}

/// Puts a place behind all that match no worse.
fn rank(scores: &Vec<Option<i64>>, listed: &mut Vec<usize>, i: usize, score: i64)
    requires
        i < scores@.len(),
        scores@[i as int] == Some(score),
        forall|a: int|
            0 <= a < old(listed)@.len() ==> #[trigger] old(listed)@[a] < scores@.len()
                && scores@[old(listed)@[a] as int] is Some,
    ensures
        final(listed)@ == ranked(scores@, old(listed)@, i),
{
    let ghost all = listed@;
    let mut at: usize = listed.len();
    let ghost mut behind: Seq<usize> = Seq::empty();
    proof {
        assert(all.subrange(0, at as int) =~= all);
        assert(ranked(scores@, all, i) + behind =~= ranked(scores@, all, i));
        assert(all.subrange(at as int, all.len() as int) =~= behind);
    }
    while at > 0
        invariant_except_break
            at <= all.len(),
            all == listed@,
            i < scores@.len(),
            scores@[i as int] == Some(score),
            forall|a: int|
                0 <= a < all.len() ==> #[trigger] all[a] < scores@.len()
                    && scores@[all[a] as int] is Some,
            behind == all.subrange(at as int, all.len() as int),
            ranked(scores@, all, i) == ranked(scores@, all.subrange(0, at as int), i) + behind,
        ensures
            at <= all.len(),
            all == listed@,
            ranked(scores@, all, i) == all.subrange(0, at as int).push(i) + all.subrange(
                at as int,
                all.len() as int,
            ),
        decreases at,
    {
        let ghost head = all.subrange(0, at as int);
        let other: usize = listed[at - 1];
        proof {
            assert(head.last() == all[at - 1]);
            assert(all[at - 1] < scores@.len() && scores@[all[at - 1] as int] is Some);
        }
        let other_score: i64 = match scores[other] {
            Some(s) => s,
            None => score,
        };
        if other_score >= score {
            break;
        }
        proof {
            assert(head.drop_last() =~= all.subrange(0, at - 1));
            let sub = ranked(scores@, all.subrange(0, at - 1), i);
            assert(sub.push(head.last()) + behind =~= sub + all.subrange(
                at - 1,
                all.len() as int,
            ));
            behind = all.subrange(at - 1, all.len() as int);
        }
        at = at - 1;
        proof {
            if at == 0 {
                assert(all.subrange(0, 0) =~= Seq::empty());
                assert(ranked(scores@, all.subrange(0, 0), i) =~= all.subrange(0, 0).push(i));
            }
        }
    }
    listed.insert(at, i);
    proof {
        assert(listed@ =~= all.subrange(0, at as int).push(i) + all.subrange(
            at as int,
            all.len() as int,
        ));
    }
}

/// The places that match, the best first.
pub fn ranking(scores: &Vec<Option<i64>>) -> (listed: Vec<usize>)
    ensures
        listed@ == best_first(scores@, scores@.len() as int),
{
    let mut listed: Vec<usize> = Vec::new();
    let mut i: usize = 0;
    proof {
        assert(listed@ =~= best_first(scores@, 0));
    }
    let count: usize = scores.len();
    while i < count
        invariant
            i <= count == scores@.len(),
            listed@ == best_first(scores@, i as int),
        decreases count - i,
    {
        proof {
            the_best_come_first(scores@, i as int);
        }
        if let Some(score) = scores[i] {
            rank(scores, &mut listed, i, score);
        }
        i = i + 1;
    }
    listed
}

/// The tabs that are listed for a query, each with its place in the list.
pub fn tab_switcher_filtered(labels: &Vec<String>, query: &str) -> (listed: Vec<(usize, usize)>)
    ensures
        listed@ == Seq::new(
            listed_tabs(texts(labels@), query@).len(),
            |i: int| (i as usize, listed_tabs(texts(labels@), query@)[i]),
        ),
{
    let ghost wanted = listed_tabs(texts(labels@), query@);
    let count: usize = labels.len();
    let empty = chars_of(query).len() == 0;
    let mut order: Vec<usize> = Vec::new();
    if empty {
        let mut i: usize = 0;
        while i < count
            invariant
                i <= count,
                order@ =~= Seq::new(i as nat, |k: int| k as usize),
            decreases count - i,
        {
            order.push(i);
            i = i + 1;
        }
        proof {
            assert(order@ =~= wanted);
        }
    } else {
        let mut scores: Vec<Option<i64>> = Vec::new();
        let mut i: usize = 0;
        while i < count
            invariant
                i <= count == labels@.len(),
                scores@ =~= label_scores(texts(labels@).subrange(0, i as int), query@),
            decreases count - i,
        {
            let score = fuzzy_match(labels[i].as_str(), query);
            scores.push(score);
            i = i + 1;
        }
        proof {
            assert(texts(labels@).subrange(0, i as int) =~= texts(labels@));
        }
        order = ranking(&scores);
    }
    let mut listed: Vec<(usize, usize)> = Vec::new();
    let mut k: usize = 0;
    while k < order.len()
        invariant
            k <= order@.len(),
            listed@ =~= Seq::new(k as nat, |i: int| (i as usize, order@[i])),
        decreases order@.len() - k,
    {
        listed.push((k, order[k]));
        k = k + 1;
    }
    listed
}

/// The field for picking a tab.
#[derive(Debug, Clone, PartialEq, Eq)]
pub struct TabSwitcherState {
    pub query: String,
    /// The highlighted line of the list.
    pub selected: usize,
}

/// What the field holds.
pub struct SwitcherModel {
    pub query: Seq<char>,
    pub selected: int,
}

impl View for TabSwitcherState {
    type V = SwitcherModel;

    open spec fn view(&self) -> SwitcherModel {
        SwitcherModel { query: self.query@, selected: self.selected as int }
    }
}

impl Default for TabSwitcherState {
    fn default() -> (state: Self)
        ensures
            state@ == (SwitcherModel { query: Seq::empty(), selected: 0 }),
    {
        let state = TabSwitcherState { query: String::new(), selected: 0 };
        proof {
            assert(state.query@ =~= Seq::empty());
        }
        state
    }
}

/// What a key does to the field.
#[derive(Debug, Clone, Copy, PartialEq, Eq, Structural)]
pub enum SwitcherKey {
    /// It stays open.
    Stay,
    Close,
    /// It closes, and the tab at a place is shown, if there is one in the line.
    Pick(Option<usize>),
}

impl SwitcherModel {
    /// What a key does to the field, where `listed` are the tabs in the list.
    pub open spec fn key(
        self,
        key: Key,
        mods: Modifiers,
        text: Option<Seq<char>>,
        listed: Seq<usize>,
    ) -> (Self, SwitcherKey) {
        let n = listed.len() as int;
        if chrome_shortcut_of(key, mods) == Some(ChromeShortcut::TabSwitcher) || key == Key::Named(
            Named::Escape,
        ) {
            (self, SwitcherKey::Close)
        } else if key == Key::Named(Named::Enter) {
            (
                self,
                SwitcherKey::Pick(
                    if self.selected < n {
                        Some(listed[self.selected])
                    } else {
                        None
                    },
                ),
            )
        } else if key == Key::Named(Named::ArrowDown) {
            (
                SwitcherModel {
                    selected: if n == 0 {
                        self.selected
                    } else {
                        (self.selected + 1) % n
                    },
                    ..self
                },
                SwitcherKey::Stay,
            )
        } else if key == Key::Named(Named::ArrowUp) {
            (
                SwitcherModel {
                    selected: if n == 0 {
                        self.selected
                    } else if self.selected == 0 {
                        n - 1
                    } else {
                        self.selected - 1
                    },
                    ..self
                },
                SwitcherKey::Stay,
            )
        } else if key == Key::Named(Named::Backspace) {
            (SwitcherModel { query: shortened(self.query), selected: 0 }, SwitcherKey::Stay)
        } else if typed(mods, text).len() > 0 {
            (
                SwitcherModel { query: self.query + typed(mods, text), selected: 0 },
                SwitcherKey::Stay,
            )
        } else {
            (self, SwitcherKey::Stay)
        }
    }
}

impl TabSwitcherState {
    /// Takes in a key press.
    pub fn handle_key(
        &mut self,
        key: &Key,
        mods: Modifiers,
        text: Option<&str>,
        listed: &Vec<(usize, usize)>,
    ) -> (outcome: SwitcherKey)
        requires
            old(self).selected < usize::MAX,
        ensures
            ({
                let places = Seq::new(listed@.len(), |i: int| listed@[i].1);
                let (after, done) = old(self)@.key(
                    *key,
                    mods,
                    crate::keyboard::opt_chars(text),
                    places,
                );
                final(self)@ == after && outcome == done
            }),
            final(self).selected < usize::MAX,
    {
        if chrome_shortcut(key, mods) == Some(ChromeShortcut::TabSwitcher) {
            return SwitcherKey::Close;
        }
        let n: usize = listed.len();
        if let Key::Named(named) = key {
            match *named {
                Named::Escape => {
                    return SwitcherKey::Close;
                },
                Named::Enter => {
                    return SwitcherKey::Pick(
                        if self.selected < n {
                            Some(listed[self.selected].1)
                        } else {
                            None
                        },
                    );
                },
                Named::ArrowDown => {
                    if n > 0 {
                        self.selected = (self.selected + 1) % n;
                    }
                    return SwitcherKey::Stay;
                },
                Named::ArrowUp => {
                    if n > 0 {
                        self.selected = if self.selected == 0 {
                            n - 1
                        } else {
                            self.selected - 1
                        };
                    }
                    return SwitcherKey::Stay;
                },
                Named::Backspace => {
                    self.query = without_last(self.query.as_str());
                    self.selected = 0;
                    return SwitcherKey::Stay;
                },
                _ => {},
            }
        }
        let shown = typed_text(mods, text);
        if chars_of(shown.as_str()).len() > 0 {
            append_text(&mut self.query, shown.as_str());
            self.selected = 0;
        }
        SwitcherKey::Stay
    }

    /// The text in the field is another.
    pub fn set_query(&mut self, query: String)
        ensures
            final(self)@ == (SwitcherModel { query: query@, selected: 0 }),
    {
        self.query = query;
        self.selected = 0;
    }
}

/// Keys of the list of tabs: the arrows move the highlight down and up, around the ends,
/// Enter shows the tab that is highlighted and Escape none.
pub proof fn keys_of_the_tab_list(
    m: SwitcherModel,
    mods: Modifiers,
    text: Option<Seq<char>>,
    listed: Seq<usize>,
)
    requires
        0 <= m.selected < listed.len(),
    ensures
        ({
            let by_key = |named: Named| m.key(Key::Named(named), mods, text, listed);
            let n = listed.len() as int;
            &&& by_key(Named::Enter).1 == SwitcherKey::Pick(Some(listed[m.selected]))
            &&& by_key(Named::Escape).1 == SwitcherKey::Close
            &&& by_key(Named::ArrowDown).0.selected == (if m.selected + 1 == n {
                0
            } else {
                m.selected + 1
            })
            &&& by_key(Named::ArrowUp).0.selected == (if m.selected == 0 {
                n - 1
            } else {
                m.selected - 1
            })
            &&& by_key(Named::ArrowDown).1 == SwitcherKey::Stay
        }),
{
    let n = listed.len() as int;
    if m.selected + 1 < n {
        assert((m.selected + 1) % n == m.selected + 1) by (nonlinear_arith)
            requires
                0 <= m.selected,
                m.selected + 1 < n,
        ;
    } else {
        assert((m.selected + 1) % n == 0) by (nonlinear_arith)
            requires
                m.selected + 1 == n,
                n > 0,
        ;
    }
}

/// Without a query all tabs are listed, in their order.
pub proof fn all_tabs_are_listed_without_a_query(labels: Seq<Seq<char>>, i: int)
    requires
        0 <= i < labels.len() <= usize::MAX,
    ensures
        listed_tabs(labels, Seq::empty()).len() == labels.len(),
        listed_tabs(labels, Seq::empty())[i] == i,
{
}

} // verus!
