//! Settings that are changed, written and read again, and themes that are edited.

use super::{Action, ThemeEdit, ThemeEditModel, Window, WindowModel};
use crate::config::{Config, ConfigModel, ScrollbarVisibility, TabPosition};
use crate::terminal::types::clamped;
use crate::text::{append_chars, append_text, chars_of, owned, same_text, texts, trim, trimmed};
use crate::toasts::ToastKind;
use vstd::prelude::*;

verus! {

/// A setting that gets a value.
#[derive(Debug)]
pub enum Setting {
    Theme(String),
    FontFamily(String),
    Scrollback(u32),
    ScrollSpeed(u32),
    ScrollbarAlways(bool),
    DisableAltScreen(bool),
    AllowClipboardRead(bool),
}

impl Setting {
    /// Whether it takes effect beyond being known.
    pub open spec fn applies(self) -> bool {
        self is Theme || self is FontFamily || self is Scrollback || self is DisableAltScreen
    }
}

impl ConfigModel {
    pub open spec fn with(self, setting: Setting) -> Self {
        match setting {
            Setting::Theme(name) => ConfigModel { theme: name@, ..self },
            Setting::FontFamily(name) => ConfigModel { font_family: name@, ..self },
            Setting::Scrollback(lines) => ConfigModel {
                scrollback_lines: clamped(lines as int, 100, 100_000),
                ..self
            },
            Setting::ScrollSpeed(speed) => ConfigModel {
                scroll_speed: clamped(speed as int, 1, 10),
                ..self
            },
            Setting::ScrollbarAlways(always) => ConfigModel {
                scrollbar_visibility: if always {
                    ScrollbarVisibility::Always
                } else {
                    ScrollbarVisibility::Auto
                },
                ..self
            },
            Setting::DisableAltScreen(disable) => ConfigModel { disable_alt_screen: disable, ..self },
            Setting::AllowClipboardRead(allow) => ConfigModel {
                allow_clipboard_read: allow,
                ..self
            },
        }
    }
}

impl Config {
    /// Gives a setting a value. Whether it takes effect beyond being known.
    pub fn set(&mut self, setting: Setting) -> (applies: bool)
        ensures
            final(self)@ == old(self)@.with(setting),
            applies == setting.applies(),
    {
        match setting {
            Setting::Theme(name) => {
                self.theme = name;
                return true;
            },
            Setting::FontFamily(name) => {
                self.font_family = name;
                return true;
            },
            Setting::Scrollback(lines) => {
                self.scrollback_lines = Config::clamp_scrollback_lines(lines as usize);
                return true;
            },
            Setting::ScrollSpeed(speed) => {
                self.scroll_speed = Config::clamp_scroll_speed(speed);
                return false;
            },
            Setting::ScrollbarAlways(always) => {
                self.scrollbar_visibility = if always {
                    ScrollbarVisibility::Always
                } else {
                    ScrollbarVisibility::Auto
                };
                return false;
            },
            Setting::DisableAltScreen(disable) => {
                self.disable_alt_screen = disable;
                return true;
            },
            Setting::AllowClipboardRead(allow) => {
                self.allow_clipboard_read = allow;
                return false;
            },
        }
    }
}

/// What is wrong with a theme that is to be saved, if anything.
#[derive(Debug)]
pub enum ThemeVerdict {
    /// The name cannot be used, and why.
    InvalidName(String),
    /// The name is that of a theme that is always there.
    Builtin,
    /// A colour cannot be read, and which.
    InvalidColor(String),
    Fine,
}

/// What went wrong, in a sentence.
pub open spec fn complaint(verdict: ThemeVerdict) -> Option<Seq<char>> {
    match verdict {
        ThemeVerdict::InvalidName(message) => Some(message@),
        ThemeVerdict::Builtin => Some("Name collides with a builtin theme"@),
        ThemeVerdict::InvalidColor(label) => Some("Invalid hex for "@ + label@),
        ThemeVerdict::Fine => None,
    }
}

/// The first of some colours that cannot be read, from a place on; or their number.
pub open spec fn first_unreadable(readable: Seq<bool>, from: int) -> int
    decreases readable.len() - from,
{
    if from >= readable.len() {
        readable.len() as int
    } else if !readable[from] {
        from
    } else {
        first_unreadable(readable, from + 1)
    }
}

/// What is wrong with a theme: its name, that there is always a theme of that name, or the
/// first of its colours that cannot be read.
pub fn theme_verdict(
    name_error: Option<String>,
    builtin: bool,
    readable: &Vec<bool>,
    labels: &Vec<String>,
) -> (verdict: ThemeVerdict)
    requires
        readable@.len() <= labels@.len(),
    ensures
        verdict is InvalidName <==> name_error is Some,
        verdict is Builtin <==> name_error is None && builtin,
        verdict is InvalidColor <==> name_error is None && !builtin && first_unreadable(readable@, 0)
            < readable@.len(),
        verdict matches ThemeVerdict::InvalidName(message) ==> message@ == name_error->0@,
        verdict matches ThemeVerdict::InvalidColor(label) ==> label@ == labels@[first_unreadable(
            readable@,
            0,
        )]@,
{
    if let Some(message) = name_error {
        return ThemeVerdict::InvalidName(message);
    }
    if builtin {
        return ThemeVerdict::Builtin;
    }
    let mut i: usize = 0;
    while i < readable.len()
        invariant
            i <= readable@.len() <= labels@.len(),
            name_error is None,
            !builtin,
            first_unreadable(readable@, 0) == first_unreadable(readable@, i as int),
        decreases readable@.len() - i,
    {
        if !readable[i] {
            return ThemeVerdict::InvalidColor(owned(labels[i].as_str()));
        }
        i = i + 1;
    }
    ThemeVerdict::Fine
}

/// A name in quotation marks.
pub open spec fn quoted(before: Seq<char>, name: Seq<char>) -> Seq<char> {
    before + "\""@ + name + "\""@
}

fn quote(before: &str, name: &str) -> (text: String)
    ensures
        text@ == quoted(before@, name@),
{
    let mut text = owned(before);
    append_text(&mut text, "\"");
    append_text(&mut text, name);
    append_text(&mut text, "\"");
    text
}

fn with_reason(before: &str, reason: &str) -> (text: String)
    ensures
        text@ == before@ + reason@,
{
    let mut text = owned(before);
    append_text(&mut text, reason);
    text
}

impl WindowModel {
    /// A setting gets a value.
    pub open spec fn setting_changed(self, setting: Setting) -> (Self, Action) {
        (
            WindowModel { config: self.config.with(setting), config_dirty: true, ..self },
            if setting.applies() {
                Action::Apply
            } else {
                Action::Nothing
            },
        )
    }

    /// The tabs get another place.
    pub open spec fn tabs_placed(self, position: TabPosition) -> (Self, Action) {
        if self.config.tab_position == position {
            (self, Action::Nothing)
        } else {
            (
                WindowModel {
                    config: ConfigModel { tab_position: position, ..self.config },
                    config_dirty: true,
                    ..self
                }.docked(position),
                Action::Apply,
            )
        }
    }

    /// The settings were written because the user wanted it.
    pub open spec fn settings_saved(self, result: Result<(), String>) -> Self {
        match result {
            Ok(_) => WindowModel { config_dirty: false, ..self }.told(
                "Config saved"@,
                ToastKind::Success,
            ),
            Err(reason) => self.told("Save failed: "@ + reason@, ToastKind::Warning),
        }
    }

    /// The settings are as they are where nothing is set.
    pub open spec fn settings_reset(self) -> Self {
        WindowModel { config: ConfigModel::standard(), ..self }.docked(TabPosition::Top)
    }

    /// The settings were written after that.
    pub open spec fn reset_saved(self, result: Result<(), String>) -> Self {
        match result {
            Ok(_) => WindowModel { config_dirty: false, ..self }.told(
                "Config reset to defaults"@,
                ToastKind::Info,
            ),
            Err(reason) => WindowModel { config_dirty: true, ..self }.told(
                "Reset applied, save failed: "@ + reason@,
                ToastKind::Warning,
            ),
        }
    }

    /// A theme is taken up to be edited. One that is always there gets another name, so
    /// that it is not written over.
    pub open spec fn theme_opened(self, name: Seq<char>, builtin: bool, hexes: Seq<Seq<char>>) -> Self {
        self.with_editor(
            Some(
                ThemeEditModel {
                    name: if builtin {
                        name + "-custom"@
                    } else {
                        name
                    },
                    hexes,
                    error: None,
                },
            ),
        )
    }

    pub open spec fn theme_named(self, name: Seq<char>) -> Self {
        WindowModel {
            editor: match self.editor {
                Some(editor) => Some(ThemeEditModel { name, ..editor }),
                None => None,
            },
            ..self
        }
    }

    pub open spec fn theme_colored(self, index: int, hex: Seq<char>) -> Self {
        WindowModel {
            editor: match self.editor {
                Some(editor) => if index < editor.hexes.len() {
                    Some(ThemeEditModel { hexes: editor.hexes.update(index, hex), ..editor })
                } else {
                    Some(editor)
                },
                None => None,
            },
            ..self
        }
    }

    /// The user wants the theme saved.
    pub open spec fn theme_judged(self, verdict: ThemeVerdict) -> (Self, Action) {
        match self.editor {
            None => (self, Action::Nothing),
            Some(editor) => match complaint(verdict) {
                Some(error) => (
                    WindowModel {
                        editor: Some(ThemeEditModel { error: Some(error), ..editor }),
                        ..self
                    },
                    Action::Nothing,
                ),
                None => (self, Action::SaveTheme),
            },
        }
    }

    /// The theme was written, or could not be. Once it is, it is the one in use.
    pub open spec fn theme_saved(self, result: Result<(), String>) -> (Self, Action) {
        match (self.editor, result) {
            (None, _) => (self, Action::Nothing),
            (Some(editor), Ok(_)) => (
                (WindowModel {
                    config: ConfigModel { theme: trimmed(editor.name), ..self.config },
                    config_dirty: true,
                    ..self
                }).with_editor(None).told(
                    quoted("Saved theme "@, trimmed(editor.name)),
                    ToastKind::Success,
                ),
                Action::Apply,
            ),
            (Some(editor), Err(reason)) => (
                (WindowModel {
                    editor: Some(
                        ThemeEditModel { error: Some("Save failed: "@ + reason@), ..editor },
                    ),
                    ..self
                }).told("Theme "@ + ("Save failed: "@ + reason@), ToastKind::Warning),
                Action::Nothing,
            ),
        }
    }

    /// The standard theme is the one in use.
    pub open spec fn theme_left(self) -> Self {
        WindowModel {
            config: ConfigModel { theme: "dark"@, ..self.config },
            config_dirty: true,
            ..self
        }
    }

    /// A theme was deleted, or could not be. Where it was in use, another one is.
    pub open spec fn theme_deleted(self, name: Seq<char>, result: Result<(), String>) -> (
        Self,
        Action,
    ) {
        let (text, kind) = deletion(name, result);
        if self.config.theme == name {
            (self.told(text, kind).theme_left(), Action::Apply)
        } else {
            (self.told(text, kind), Action::Nothing)
        }
    }
}

/// What the user is told about a theme that they wanted deleted.
pub open spec fn deletion(name: Seq<char>, result: Result<(), String>) -> (Seq<char>, ToastKind) {
    match result {
        Ok(_) => (quoted("Deleted theme "@, name), ToastKind::Info),
        Err(reason) => ("Delete failed: "@ + reason@, ToastKind::Warning),
    }
}

fn deletion_message(name: &str, result: Result<(), String>) -> (message: (String, ToastKind))
    ensures
        (message.0@, message.1) == deletion(name@, result),
{
    match result {
        Ok(_) => (quote("Deleted theme ", name), ToastKind::Info),
        Err(reason) => (with_reason("Delete failed: ", reason.as_str()), ToastKind::Warning),
    }
}

fn label_of_verdict(verdict: ThemeVerdict) -> (error: Option<String>)
    ensures
        error is Some <==> complaint(verdict) is Some,
        error matches Some(text) ==> complaint(verdict) == Some(text@),
{
    match verdict {
        ThemeVerdict::InvalidName(message) => Some(message),
        ThemeVerdict::Builtin => Some(owned("Name collides with a builtin theme")),
        ThemeVerdict::InvalidColor(label) => Some(with_reason("Invalid hex for ", label.as_str())),
        ThemeVerdict::Fine => None,
    }
}

impl ThemeEdit {
    /// Changes one of the colours, if there is one at that place.
    fn set_color(&mut self, index: usize, hex: String)
        ensures
            final(self)@ == (if index < old(self)@.hexes.len() {
                ThemeEditModel {
                    hexes: old(self)@.hexes.update(index as int, hex@),
                    ..old(self)@
                }
            } else {
                old(self)@
            }),
    {
        if index < self.hexes.len() {
            let ghost before = texts(self.hexes@);
            self.hexes.set(index, hex);
            proof {
                assert(texts(self.hexes@) =~= before.update(index as int, hex@));
            }
        }
    }
}

impl Window {
    /// Gives a setting a value.
    #[verifier::spinoff_prover]
    pub fn change_setting(&mut self, setting: Setting) -> (action: Action)
        requires
            old(self).wf(),
        ensures
            final(self).wf(),
            (final(self)@, action) == old(self)@.setting_changed(setting),
    {
        let applies = self.config.set(setting);
        self.config_dirty = true;
        if applies {
            Action::Apply
        } else {
            Action::Nothing
        }
    }

    /// A measure was set, which is kept elsewhere.
    pub fn measure_set(&mut self) -> (action: Action)
        requires
            old(self).wf(),
        ensures
            final(self).wf(),
            final(self)@ == (WindowModel { config_dirty: true, ..old(self)@ }),
            action == Action::Apply,
    {
        self.config_dirty = true;
        Action::Apply
    }

    /// Puts the tabs at another place.
    #[verifier::spinoff_prover]
    pub fn place_tabs(&mut self, position: TabPosition) -> (action: Action)
        requires
            old(self).wf(),
        ensures
            final(self).wf(),
            (final(self)@, action) == old(self)@.tabs_placed(position),
    {
        if self.config.tab_position == position {
            return Action::Nothing;
        }
        self.config.tab_position = position;
        self.config_dirty = true;
        self.desk.sync_tab_position(position == TabPosition::Side);
        Action::Apply
    }

    /// Takes in whether the settings could be written.
    #[verifier::spinoff_prover]
    pub fn note_saved(&mut self, result: Result<(), String>)
        requires
            old(self).wf(),
        ensures
            final(self).wf(),
            final(self)@ == old(self)@.settings_saved(result),
    {
        match result {
            Ok(_) => {
                self.config_dirty = false;
                self.tell(owned("Config saved"), ToastKind::Success);
            },
            Err(reason) => {
                self.tell(with_reason("Save failed: ", reason.as_str()), ToastKind::Warning);
            },
        }
    }

    /// Goes back to the settings where nothing is set. They take effect, and are written.
    #[verifier::spinoff_prover]
    pub fn reset_settings(&mut self) -> (action: Action)
        requires
            old(self).wf(),
        ensures
            final(self).wf(),
            final(self)@ == old(self)@.settings_reset(),
            action == Action::Apply,
    {
        self.config = Config::default();
        self.desk.sync_tab_position(false);
        Action::Apply
    }

    /// Takes in whether they could be written after that.
    #[verifier::spinoff_prover]
    pub fn note_reset_saved(&mut self, result: Result<(), String>)
        requires
            old(self).wf(),
        ensures
            final(self).wf(),
            final(self)@ == old(self)@.reset_saved(result),
    {
        match result {
            Ok(_) => {
                self.config_dirty = false;
                self.tell(owned("Config reset to defaults"), ToastKind::Info);
            },
            Err(reason) => {
                self.config_dirty = true;
                self.tell(
                    with_reason("Reset applied, save failed: ", reason.as_str()),
                    ToastKind::Warning,
                );
            },
        }
    }

    /// Whether settings are to be written by now.
    pub fn persist_live_config(&self) -> (action: Action)
        ensures
            action == (if self@.config_dirty {
                Action::SaveSettings
            } else {
                Action::Nothing
            }),
    {
        if self.config_dirty {
            Action::SaveSettings
        } else {
            Action::Nothing
        }
    }

    /// Takes in whether they could be written. Where they could not, it is tried again.
    pub fn note_persisted(&mut self, written: bool)
        requires
            old(self).wf(),
        ensures
            final(self).wf(),
            final(self)@ == (WindowModel {
                config_dirty: old(self)@.config_dirty && !written,
                ..old(self)@
            }),
    {
        if written {
            self.config_dirty = false;
        }
    }

    /// Takes up settings that another has changed.
    #[verifier::spinoff_prover]
    pub fn reload_settings(&mut self, config: Config) -> (action: Action)
        requires
            old(self).wf(),
        ensures
            final(self).wf(),
            final(self)@ == (WindowModel {
                config: config@,
                config_dirty: false,
                ..old(self)@
            }).docked(config.tab_position),
            action == Action::Apply,
    {
        let at_side = config.tab_position == TabPosition::Side;
        self.config = config;
        self.config_dirty = false;
        self.desk.sync_tab_position(at_side);
        Action::Apply
    }

    #[verifier::spinoff_prover]
    fn edit_theme(&mut self, editor: ThemeEdit)
        requires
            old(self).wf(),
        ensures
            final(self).wf(),
            final(self)@ == old(self)@.with_editor(Some(editor@)),
    {
        self.theme_editor = Some(editor);
        self.desk.chrome.theme_editor_open = true;
    }

    /// Starts editing a theme.
    pub fn open_theme(&mut self, name: String, builtin: bool, hexes: Vec<String>)
        requires
            old(self).wf(),
        ensures
            final(self).wf(),
            final(self)@ == old(self)@.theme_opened(name@, builtin, texts(hexes@)),
    {
        let mut suggested = name;
        if builtin {
            append_text(&mut suggested, "-custom");
        }
        self.edit_theme(ThemeEdit { name: suggested, hexes, error: None });
    }

    #[verifier::spinoff_prover]
    pub fn close_theme(&mut self)
        requires
            old(self).wf(),
        ensures
            final(self).wf(),
            final(self)@ == old(self)@.with_editor(None),
    {
        self.theme_editor = None;
        self.desk.chrome.theme_editor_open = false;
    }

    #[verifier::spinoff_prover]
    pub fn name_theme(&mut self, name: String)
        requires
            old(self).wf(),
        ensures
            final(self).wf(),
            final(self)@ == old(self)@.theme_named(name@),
    {
        let mut editor = match self.theme_editor.take() {
            Some(editor) => editor,
            None => {
                return;
            },
        };
        editor.name = name;
        self.theme_editor = Some(editor);
    }

    #[verifier::spinoff_prover]
    pub fn color_theme(&mut self, index: usize, hex: String)
        requires
            old(self).wf(),
        ensures
            final(self).wf(),
            final(self)@ == old(self)@.theme_colored(index as int, hex@),
    {
        let mut editor = match self.theme_editor.take() {
            Some(editor) => editor,
            None => {
                return;
            },
        };
        editor.set_color(index, hex);
        self.theme_editor = Some(editor);
    }

    /// The name under which the theme is saved.
    pub fn theme_name(&self) -> (name: Option<String>)
        ensures
            name is Some <==> self@.editor is Some,
            name matches Some(name) ==> name@ == trimmed(self@.editor->0.name),
    {
        match &self.theme_editor {
            Some(editor) => {
                let chars = chars_of(editor.name.as_str());
                let mut name = String::new();
                append_chars(&mut name, trim(chars.as_slice()));
                Some(name)
            },
            None => None,
        }
    }

    /// Takes in what is wrong with the theme that the user wants saved.
    #[verifier::spinoff_prover]
    pub fn judge_theme(&mut self, verdict: ThemeVerdict) -> (action: Action)
        requires
            old(self).wf(),
        ensures
            final(self).wf(),
            (final(self)@, action) == old(self)@.theme_judged(verdict),
    {
        if self.theme_editor.is_none() {
            return Action::Nothing;
        }
        let error = match label_of_verdict(verdict) {
            Some(error) => error,
            None => {
                return Action::SaveTheme;
            },
        };
        let mut editor = match self.theme_editor.take() {
            Some(editor) => editor,
            None => {
                return Action::Nothing;
            },
        };
        editor.error = Some(error);
        self.theme_editor = Some(editor);
        Action::Nothing
    }

    #[verifier::spinoff_prover]
    fn theme_was_saved(&mut self) -> (action: Action)
        requires
            old(self).wf(),
        ensures
            final(self).wf(),
            (final(self)@, action) == old(self)@.theme_saved(Ok(())),
    {
        let name = match self.theme_name() {
            Some(name) => name,
            None => {
                return Action::Nothing;
            },
        };
        let text = quote("Saved theme ", name.as_str());
        self.config.theme = name;
        self.config_dirty = true;
        self.close_theme();
        self.tell(text, ToastKind::Success);
        Action::Apply
    }

    #[verifier::spinoff_prover]
    fn theme_was_not_saved(&mut self, reason: String) -> (action: Action)
        requires
            old(self).wf(),
        ensures
            final(self).wf(),
            (final(self)@, action) == old(self)@.theme_saved(Err(reason)),
    {
        let mut editor = match self.theme_editor.take() {
            Some(editor) => editor,
            None => {
                return Action::Nothing;
            },
        };
        let message = with_reason("Save failed: ", reason.as_str());
        let text = with_reason("Theme ", message.as_str());
        editor.error = Some(message);
        self.theme_editor = Some(editor);
        self.tell(text, ToastKind::Warning);
        Action::Nothing
    }

    /// Takes in whether the theme could be written.
    pub fn note_theme_saved(&mut self, result: Result<(), String>) -> (action: Action)
        requires
            old(self).wf(),
        ensures
            final(self).wf(),
            (final(self)@, action) == old(self)@.theme_saved(result),
    {
        match result {
            Ok(_) => self.theme_was_saved(),
            Err(reason) => self.theme_was_not_saved(reason),
        }
    }

    #[verifier::spinoff_prover]
    fn leave_theme(&mut self)
        requires
            old(self).wf(),
        ensures
            final(self).wf(),
            final(self)@ == old(self)@.theme_left(),
    {
        self.config.theme = owned("dark");
        self.config_dirty = true;
    }

    /// Takes in whether a theme could be deleted.
    #[verifier::spinoff_prover]
    pub fn note_theme_deleted(&mut self, name: &str, result: Result<(), String>) -> (action: Action)
        requires
            old(self).wf(),
        ensures
            final(self).wf(),
            (final(self)@, action) == old(self)@.theme_deleted(name@, result),
    {
        let in_use = same_text(self.config.theme.as_str(), name);
        let (text, kind) = deletion_message(name, result);
        self.tell(text, kind);
        if in_use {
            self.leave_theme();
            return Action::Apply;
        }
        Action::Nothing
    }
}

} // verus!
