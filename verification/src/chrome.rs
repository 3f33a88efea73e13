//! What lies over the terminals: who gets a key press, and who the pointer.

use crate::command_palette::{palette_items, PaletteAction, PaletteModel, PaletteState};
use crate::keyboard::{
    ascii_lower, chrome_shortcut, chrome_shortcut_of, opt_chars, to_ascii_lower, ChromeShortcut,
    Key, Modifiers, Named,
};
use crate::tab_switcher::{
    shortened, typed, typed_text, without_last, SwitcherKey, SwitcherModel, TabSwitcherState,
};
use crate::tabs::CloseConfirm;
use crate::text::{append_text, chars_of};
use vstd::prelude::*;

verus! {

/// What lies over the terminals.
#[derive(Debug)]
pub struct Chrome {
    pub search_open: bool,
    pub palette: PaletteState,
    pub config_panel_open: bool,
    pub theme_editor_open: bool,
    pub help_open: bool,
    pub debug_open: bool,
    pub tab_switcher: Option<TabSwitcherState>,
    /// A tab that the user is asked about.
    pub tab_close_confirm: Option<CloseConfirm>,
}

/// What lies over the terminals.
pub struct ChromeModel {
    pub search_open: bool,
    pub palette: PaletteModel,
    pub config_panel_open: bool,
    pub theme_editor_open: bool,
    pub help_open: bool,
    pub debug_open: bool,
    pub switcher: Option<SwitcherModel>,
    pub confirm: Option<CloseConfirm>,
}

impl View for Chrome {
    type V = ChromeModel;

    open spec fn view(&self) -> ChromeModel {
        ChromeModel {
            search_open: self.search_open,
            palette: self.palette@,
            config_panel_open: self.config_panel_open,
            theme_editor_open: self.theme_editor_open,
            help_open: self.help_open,
            debug_open: self.debug_open,
            switcher: match self.tab_switcher {
                Some(s) => Some(s@),
                None => None,
            },
            confirm: self.tab_close_confirm,
        }
    }
}

/// What a key does to the search.
#[derive(Debug, Clone, Copy, PartialEq, Eq, Structural)]
pub enum SearchKey {
    Close,
    Next,
    Previous,
    /// The last character of the query goes.
    Shorten,
    HistoryPrevious,
    HistoryNext,
    ToggleRegex,
    ToggleCase,
    /// What was typed goes behind the query.
    Type,
    /// The key is kept from the terminal.
    Swallow,
}

/// Who gets a key press.
#[derive(Debug)]
pub enum KeyOutcome {
    /// No one else.
    Swallowed,
    CloseTabMenu,
    /// The user wants the tab closed.
    ConfirmClose(CloseConfirm),
    /// The tab at a place was picked, if there is one.
    Pick(Option<usize>),
    /// An action of the palette was chosen.
    Palette(PaletteAction),
    Search(SearchKey),
    /// Shortcuts, and then the terminal.
    Pass,
}

/// Whether a key is a letter, in either case, held with Ctrl and Shift.
pub open spec fn is_chord(key: Key, mods: Modifiers, letter: char) -> bool {
    &&& mods.control
    &&& mods.shift
    &&& key is Character
    &&& key->Character_0@.len() == 1
    &&& ascii_lower(key->Character_0@[0]) == letter
}

fn is_chord_of(key: &Key, mods: Modifiers, letter: char) -> (v: bool)
    ensures
        v == is_chord(*key, mods, letter),
{
    if !mods.control || !mods.shift {
        return false;
    }
    match key {
        Key::Character(s) => {
            let chars = chars_of(s.as_str());
            chars.len() == 1 && to_ascii_lower(chars[0]) == letter
        },
        _ => false,
    }
}

/// What a key does to a search that is open.
pub open spec fn search_key(key: Key, mods: Modifiers, text: Option<Seq<char>>) -> SearchKey {
    if is_chord(key, mods, 'f') || key == Key::Named(Named::Escape) {
        SearchKey::Close
    } else if key == Key::Named(Named::Enter) {
        if mods.shift {
            SearchKey::Previous
        } else {
            SearchKey::Next
        }
    } else if key == Key::Named(Named::Backspace) {
        SearchKey::Shorten
    } else if key == Key::Named(Named::ArrowUp) {
        SearchKey::HistoryPrevious
    } else if key == Key::Named(Named::ArrowDown) {
        SearchKey::HistoryNext
    } else if key is Character && mods.control {
        let s = key->Character_0@;
        if s.len() > 0 && ascii_lower(s[0]) == 'r' {
            SearchKey::ToggleRegex
        } else if s.len() > 0 && ascii_lower(s[0]) == 'i' {
            SearchKey::ToggleCase
        } else {
            SearchKey::Swallow
        }
    } else if typed(mods, text).len() > 0 {
        SearchKey::Type
    } else {
        SearchKey::Swallow
    }
}

/// What a key does to a search that is open.
pub fn search_key_of(key: &Key, mods: Modifiers, text: Option<&str>) -> (k: SearchKey)
    ensures
        k == search_key(*key, mods, opt_chars(text)),
{
    if is_chord_of(key, mods, 'f') {
        return SearchKey::Close;
    }
    match key {
        Key::Named(named) => {
            match *named {
                Named::Escape => {
                    return SearchKey::Close;
                },
                Named::Enter => {
                    return if mods.shift {
                        SearchKey::Previous
                    } else {
                        SearchKey::Next
                    };
                },
                Named::Backspace => {
                    return SearchKey::Shorten;
                },
                Named::ArrowUp => {
                    return SearchKey::HistoryPrevious;
                },
                Named::ArrowDown => {
                    return SearchKey::HistoryNext;
                },
                _ => {},
            }
        },
        Key::Character(s) => {
            if mods.control {
                let chars = chars_of(s.as_str());
                if chars.len() == 0 {
                    return SearchKey::Swallow;
                }
                let c = to_ascii_lower(chars[0]);
                return if c == 'r' {
                    SearchKey::ToggleRegex
                } else if c == 'i' {
                    SearchKey::ToggleCase
                } else {
                    SearchKey::Swallow
                };
            }
        },
        Key::Unidentified => {},
    }
    let shown = typed_text(mods, text);
    if chars_of(shown.as_str()).len() > 0 {
        SearchKey::Type
    } else {
        SearchKey::Swallow
    }
}

/// What a key does to the palette while it is open: the palette then, and the action
/// that was chosen.
pub open spec fn palette_key(
    palette: PaletteModel,
    key: Key,
    mods: Modifiers,
    text: Option<Seq<char>>,
) -> (PaletteModel, Option<PaletteAction>) {
    let closed = PaletteModel { is_open: false, ..palette };
    if is_chord(key, mods, 'p') || key == Key::Named(Named::Escape) {
        (closed, None)
    } else if key == Key::Named(Named::Enter) {
        (
            closed,
            if palette.selected < palette.shown().len() {
                Some(palette_items()[palette.shown()[palette.selected]].action)
            } else {
                None
            },
        )
    } else if key == Key::Named(Named::ArrowUp) {
        (palette.prev_selected(), None)
    } else if key == Key::Named(Named::ArrowDown) {
        (palette.next_selected(), None)
    } else if key == Key::Named(Named::Backspace) {
        (PaletteModel { query: shortened(palette.query), selected: 0, ..palette }, None)
    } else if typed(mods, text).len() > 0 {
        (
            PaletteModel { query: palette.query + typed(mods, text), selected: 0, ..palette },
            None,
        )
    } else {
        (palette, None)
    }
}

fn handle_palette_key(
    palette: &mut PaletteState,
    key: &Key,
    mods: Modifiers,
    text: Option<&str>,
) -> (action: Option<PaletteAction>)
    requires
        old(palette).wf(),
    ensures
        final(palette).wf(),
        (final(palette)@, action) == palette_key(old(palette)@, *key, mods, opt_chars(text)),
{
    if is_chord_of(key, mods, 'p') {
        palette.close();
        return None;
    }
    if let Key::Named(named) = key {
        match *named {
            Named::Escape => {
                palette.close();
                return None;
            },
            Named::Enter => {
                let action = palette.selected_action();
                palette.close();
                return action;
            },
            Named::ArrowUp => {
                palette.select_prev();
                return None;
            },
            Named::ArrowDown => {
                palette.select_next();
                return None;
            },
            Named::Backspace => {
                palette.query = without_last(palette.query.as_str());
                palette.selected = 0;
                return None;
            },
            _ => {},
        }
    }
    let shown = typed_text(mods, text);
    if chars_of(shown.as_str()).len() > 0 {
        append_text(&mut palette.query, shown.as_str());
        palette.selected = 0;
    }
    None
}

/// The places of the tabs in a list.
pub open spec fn places_in(listed: Seq<(usize, usize)>) -> Seq<usize> {
    Seq::new(listed.len(), |i: int| listed[i].1)
}

impl ChromeModel {
    /// Nothing lies over the terminals.
    pub open spec fn bare() -> Self {
        ChromeModel {
            search_open: false,
            palette: PaletteModel {
                is_open: false,
                query: Seq::empty(),
                selected: 0,
                mru: Seq::empty(),
            },
            config_panel_open: false,
            theme_editor_open: false,
            help_open: false,
            debug_open: false,
            switcher: None,
            confirm: None,
        }
    }

    /// Whether the terminal gets what is typed.
    pub open spec fn input_active(self, tab_menu_open: bool) -> bool {
        !self.search_open && self.pointer_active(tab_menu_open)
    }

    /// Whether the terminal gets the pointer. A search does not keep it away.
    pub open spec fn pointer_active(self, tab_menu_open: bool) -> bool {
        !self.palette.is_open && !self.config_panel_open && !self.help_open && !self.debug_open
            && !tab_menu_open && self.switcher is None && self.confirm is None
    }

    /// Who gets a key press: what lies on top first.
    #[verifier::opaque]
    pub open spec fn key(
        self,
        tab_menu_open: bool,
        key: Key,
        mods: Modifiers,
        text: Option<Seq<char>>,
        listed: Seq<usize>,
    ) -> (Self, KeyOutcome) {
        let escape = key == Key::Named(Named::Escape);
        if self.confirm is Some {
            if key == Key::Named(Named::Enter) {
                (
                    ChromeModel { confirm: None, ..self },
                    KeyOutcome::ConfirmClose(self.confirm->0),
                )
            } else if escape {
                (ChromeModel { confirm: None, ..self }, KeyOutcome::Swallowed)
            } else {
                (self, KeyOutcome::Swallowed)
            }
        } else if tab_menu_open {
            if escape {
                (self, KeyOutcome::CloseTabMenu)
            } else {
                (self, KeyOutcome::Swallowed)
            }
        } else if self.switcher is Some {
            let (after, done) = self.switcher->0.key(key, mods, text, listed);
            match done {
                SwitcherKey::Stay => (
                    ChromeModel { switcher: Some(after), ..self },
                    KeyOutcome::Swallowed,
                ),
                SwitcherKey::Close => (
                    ChromeModel { switcher: None, ..self },
                    KeyOutcome::Swallowed,
                ),
                SwitcherKey::Pick(tab) => (
                    ChromeModel { switcher: None, ..self },
                    KeyOutcome::Pick(tab),
                ),
            }
        } else if self.help_open || self.debug_open {
            let shortcut = chrome_shortcut_of(key, mods);
            if escape || (self.help_open && shortcut == Some(ChromeShortcut::Help)) || (
            self.debug_open && shortcut == Some(ChromeShortcut::Debug)) {
                (
                    ChromeModel { help_open: false, debug_open: false, ..self },
                    KeyOutcome::Swallowed,
                )
            } else {
                (self, KeyOutcome::Swallowed)
            }
        } else if self.config_panel_open {
            if is_chord(key, mods, 'o') {
                (
                    ChromeModel { config_panel_open: false, theme_editor_open: false, ..self },
                    KeyOutcome::Swallowed,
                )
            } else if escape && self.theme_editor_open {
                (ChromeModel { theme_editor_open: false, ..self }, KeyOutcome::Swallowed)
            } else if escape {
                (ChromeModel { config_panel_open: false, ..self }, KeyOutcome::Swallowed)
            } else {
                (self, KeyOutcome::Swallowed)
            }
        } else if self.palette.is_open {
            let (after, action) = palette_key(self.palette, key, mods, text);
            (
                ChromeModel { palette: after, ..self },
                match action {
                    Some(action) => KeyOutcome::Palette(action),
                    None => KeyOutcome::Swallowed,
                },
            )
        } else if self.search_open {
            let k = search_key(key, mods, text);
            (
                ChromeModel { search_open: k != SearchKey::Close, ..self },
                KeyOutcome::Search(k),
            )
        } else {
            (self, KeyOutcome::Pass)
        }
    }

    /// What a shortcut of the window does.
    pub open spec fn toggled(self, shortcut: ChromeShortcut) -> Self {
        match shortcut {
            ChromeShortcut::CommandPalette => ChromeModel {
                palette: if self.palette.is_open {
                    PaletteModel { is_open: false, ..self.palette }
                } else {
                    PaletteModel {
                        is_open: true,
                        query: Seq::empty(),
                        selected: 0,
                        ..self.palette
                    }
                },
                ..self
            },
            ChromeShortcut::Help => ChromeModel { help_open: !self.help_open, ..self },
            ChromeShortcut::TabSwitcher => ChromeModel {
                switcher: if self.switcher is Some {
                    None
                } else {
                    Some(SwitcherModel { query: Seq::empty(), selected: 0 })
                },
                ..self
            },
            ChromeShortcut::Debug => ChromeModel { debug_open: !self.debug_open, ..self },
        }
    }
}

/// A field that text is typed into.
#[derive(Debug, Clone, Copy, PartialEq, Eq, Structural)]
pub enum Field {
    Search,
    Palette,
    TabSwitcher,
}

impl Chrome {
    pub open spec fn wf(&self) -> bool {
        self.palette.wf()
    }

    /// Nothing lies over the terminals.
    pub fn new() -> (chrome: Self)
        ensures
            chrome.wf(),
            chrome@ == ChromeModel::bare(),
    {
        Chrome {
            search_open: false,
            palette: PaletteState::new(),
            config_panel_open: false,
            theme_editor_open: false,
            help_open: false,
            debug_open: false,
            tab_switcher: None,
            tab_close_confirm: None,
        }
    }

    /// Whether the terminal gets what is typed.
    pub fn terminal_input_active(&self, tab_menu_open: bool) -> (v: bool)
        ensures
            v == self@.input_active(tab_menu_open),
    {
        !self.search_open && self.terminal_mouse_active(tab_menu_open)
    }

    /// Whether the terminal gets the pointer.
    pub fn terminal_mouse_active(&self, tab_menu_open: bool) -> (v: bool)
        ensures
            v == self@.pointer_active(tab_menu_open),
    {
        !self.palette.is_open && !self.config_panel_open && !self.help_open && !self.debug_open
            && !tab_menu_open && self.tab_switcher.is_none() && self.tab_close_confirm.is_none()
    }

    /// Takes in a key press, and says who gets it. `listed` are the tabs in the list of
    /// the tab switcher, where it is open.
    pub fn route_key(
        &mut self,
        tab_menu_open: bool,
        key: &Key,
        mods: Modifiers,
        text: Option<&str>,
        listed: &Vec<(usize, usize)>,
    ) -> (outcome: KeyOutcome)
        requires
            old(self).wf(),
            old(self).tab_switcher matches Some(s) ==> s.selected < usize::MAX,
        ensures
            final(self).wf(),
            (final(self)@, outcome) == old(self)@.key(
                tab_menu_open,
                *key,
                mods,
                opt_chars(text),
                places_in(listed@),
            ),
            final(self)@.theme_editor_open ==> old(self)@.theme_editor_open,
            final(self)@.switcher matches Some(s) ==> s.selected < usize::MAX,
    {
        proof {
            reveal(ChromeModel::key);
        }
        let (is_escape, is_enter) = match key {
            Key::Named(named) => (*named == Named::Escape, *named == Named::Enter),
            _ => (false, false),
        };
        if self.tab_close_confirm.is_some() {
            if is_enter {
                if let Some(confirm) = self.tab_close_confirm.take() {
                    return KeyOutcome::ConfirmClose(confirm);
                }
            } else if is_escape {
                self.tab_close_confirm = None;
            }
            return KeyOutcome::Swallowed;
        }
        if tab_menu_open {
            return if is_escape {
                KeyOutcome::CloseTabMenu
            } else {
                KeyOutcome::Swallowed
            };
        }
        if let Some(mut switcher) = self.tab_switcher.take() {
            return match switcher.handle_key(key, mods, text, listed) {
                SwitcherKey::Stay => {
                    self.tab_switcher = Some(switcher);
                    KeyOutcome::Swallowed
                },
                SwitcherKey::Close => KeyOutcome::Swallowed,
                SwitcherKey::Pick(tab) => KeyOutcome::Pick(tab),
            };
        }
        if self.help_open || self.debug_open {
            let shortcut = chrome_shortcut(key, mods);
            if is_escape || (self.help_open && shortcut == Some(ChromeShortcut::Help)) || (
            self.debug_open && shortcut == Some(ChromeShortcut::Debug)) {
                self.help_open = false;
                self.debug_open = false;
            }
            return KeyOutcome::Swallowed;
        }
        if self.config_panel_open {
            if is_chord_of(key, mods, 'o') {
                self.theme_editor_open = false;
                self.config_panel_open = false;
            } else if is_escape {
                if self.theme_editor_open {
                    self.theme_editor_open = false;
                } else {
                    self.config_panel_open = false;
                }
            }
            return KeyOutcome::Swallowed;
        }
        if self.palette.is_open {
            return match handle_palette_key(&mut self.palette, key, mods, text) {
                Some(action) => KeyOutcome::Palette(action),
                None => KeyOutcome::Swallowed,
            };
        }
        if self.search_open {
            let k = search_key_of(key, mods, text);
            if k == SearchKey::Close {
                self.search_open = false;
            }
            return KeyOutcome::Search(k);
        }
        KeyOutcome::Pass
    }

    /// Does what a shortcut of the window does. Says which field to type into.
    pub fn toggle(&mut self, shortcut: ChromeShortcut) -> (field: Option<Field>)
        requires
            old(self).wf(),
        ensures
            final(self).wf(),
            final(self)@ == old(self)@.toggled(shortcut),
            field == (if shortcut == ChromeShortcut::CommandPalette && !old(self)@.palette.is_open {
                Some(Field::Palette)
            } else if shortcut == ChromeShortcut::TabSwitcher && old(self)@.switcher is None {
                Some(Field::TabSwitcher)
            } else {
                None
            }),
    {
        match shortcut {
            ChromeShortcut::CommandPalette => {
                self.palette.toggle();
                if self.palette.is_open {
                    Some(Field::Palette)
                } else {
                    None
                }
            },
            ChromeShortcut::Help => {
                self.help_open = !self.help_open;
                None
            },
            ChromeShortcut::TabSwitcher => {
                if self.tab_switcher.is_some() {
                    self.tab_switcher = None;
                    None
                } else {
                    self.tab_switcher = Some(TabSwitcherState::default());
                    Some(Field::TabSwitcher)
                }
            },
            ChromeShortcut::Debug => {
                self.debug_open = !self.debug_open;
                None
            },
        }
    }
}

/// What lies over the terminals keeps keys from them: a key reaches shortcuts and the
/// terminal only where the terminal gets what is typed.
pub proof fn keys_pass_only_to_an_uncovered_terminal(
    chrome: ChromeModel,
    tab_menu_open: bool,
    key: Key,
    mods: Modifiers,
    text: Option<Seq<char>>,
    listed: Seq<usize>,
)
    ensures
        chrome.key(tab_menu_open, key, mods, text, listed).1 is Pass <==> chrome.input_active(
            tab_menu_open,
        ),
{
    reveal(ChromeModel::key);
}

/// Escape closes what lies on top, one after another.
pub proof fn escape_closes_what_is_on_top(chrome: ChromeModel, mods: Modifiers)
    requires
        !chrome.input_active(false),
        chrome.switcher is None,
    ensures
        ({
            let after = chrome.key(
                false,
                Key::Named(Named::Escape),
                mods,
                None,
                Seq::empty(),
            ).0;
            if chrome.confirm is Some {
                after.confirm is None
            } else if chrome.help_open || chrome.debug_open {
                !after.help_open && !after.debug_open
            } else if chrome.config_panel_open && chrome.theme_editor_open {
                after.config_panel_open && !after.theme_editor_open
            } else if chrome.config_panel_open {
                !after.config_panel_open
            } else if chrome.palette.is_open {
                !after.palette.is_open
            } else {
                !after.search_open
            }
        }),
{
    reveal(ChromeModel::key);
}

/// Keys of a search: Enter goes to the next match and with Shift to the one before, the arrows
/// go through the queries asked before, Backspace shortens the query, Escape closes the
/// search, and Ctrl with `r` or `i` changes how it looks.
pub proof fn keys_of_a_search(mods: Modifiers, text: Option<Seq<char>>, s: String)
    requires
        s@.len() > 0,
        mods.control,
        !mods.shift,
    ensures
        ({
            let none = Modifiers::none();
            let shift = Modifiers { shift: true, ..none };
            &&& search_key(Key::Named(Named::Enter), none, text) == SearchKey::Next
            &&& search_key(Key::Named(Named::Enter), shift, text) == SearchKey::Previous
            &&& search_key(Key::Named(Named::ArrowUp), none, text) == SearchKey::HistoryPrevious
            &&& search_key(Key::Named(Named::ArrowDown), none, text) == SearchKey::HistoryNext
            &&& search_key(Key::Named(Named::Backspace), none, text) == SearchKey::Shorten
            &&& search_key(Key::Named(Named::Escape), none, text) == SearchKey::Close
            &&& s@[0] == 'r' || s@[0] == 'R' ==> search_key(Key::Character(s), mods, text)
                == SearchKey::ToggleRegex
            &&& s@[0] == 'i' || s@[0] == 'I' ==> search_key(Key::Character(s), mods, text)
                == SearchKey::ToggleCase
        }),
{
}

/// Keys of the palette: the arrows move the highlight, Enter closes it and does what is
/// highlighted, Escape closes it and does nothing, and Backspace shortens the query.
pub proof fn keys_of_the_palette(palette: PaletteModel, mods: Modifiers, text: Option<Seq<char>>)
    requires
        0 <= palette.selected < palette.shown().len(),
    ensures
        ({
            let by_key = |named: Named| palette_key(palette, Key::Named(named), mods, text);
            let item = palette_items()[palette.shown()[palette.selected]];
            &&& by_key(Named::Enter) == (
                PaletteModel { is_open: false, ..palette },
                Some(item.action),
            )
            &&& by_key(Named::Escape) == (PaletteModel { is_open: false, ..palette }, None::<PaletteAction>)
            &&& by_key(Named::ArrowDown) == (palette.next_selected(), None::<PaletteAction>)
            &&& by_key(Named::ArrowUp) == (palette.prev_selected(), None::<PaletteAction>)
            &&& palette.query.len() > 0 ==> by_key(Named::Backspace).0.query
                == palette.query.drop_last()
            &&& by_key(Named::Backspace).0.is_open == palette.is_open
        }),
{
}

/// The terminal gets what is typed only where nothing lies over it, and the pointer also
/// during a search.
pub proof fn what_lies_over_the_terminal_keeps_input_away(chrome: ChromeModel, menu: bool)
    ensures
        chrome.input_active(menu) <==> !chrome.search_open && !chrome.palette.is_open
            && !chrome.config_panel_open && !chrome.help_open && !chrome.debug_open && !menu
            && chrome.switcher is None && chrome.confirm is None,
        chrome.pointer_active(menu) <==> !chrome.palette.is_open && !chrome.config_panel_open
            && !chrome.help_open && !chrome.debug_open && !menu && chrome.switcher is None
            && chrome.confirm is None,
        ChromeModel::bare().input_active(false),
{
}

} // verus!
