//! Keys: what an application is sent for a key press, and the names of shortcuts.

use crate::outside::{lower_char, lowercase_char, upper_char, uppercase_char};
use crate::text::{append_text, chars_of, decimal, push_decimal};
use vstd::prelude::*;
use vstd::utf8::encode_utf8;

pub mod laws;

verus! {

/// A key that has a name rather than a character.
#[derive(Debug, Clone, Copy, PartialEq, Eq, Structural)]
pub enum Named {
    Enter,
    Tab,
    Space,
    Escape,
    Backspace,
    Delete,
    Insert,
    Home,
    End,
    PageUp,
    PageDown,
    ArrowUp,
    ArrowDown,
    ArrowLeft,
    ArrowRight,
    F1,
    F2,
    F3,
    F4,
    F5,
    F6,
    F7,
    F8,
    F9,
    F10,
    F11,
    F12,
    /// A key that no terminal is told of.
    Other,
}

/// A key that was pressed.
#[derive(Debug, Clone, PartialEq, Eq)]
pub enum Key {
    Named(Named),
    /// The character on the key, with the layout applied but not the modifiers.
    Character(String),
    Unidentified,
}

/// Where on the keyboard a key is.
#[derive(Debug, Clone, Copy, PartialEq, Eq, Structural)]
pub enum Location {
    Standard,
    Left,
    Right,
    Numpad,
}

/// The modifiers that are held.
#[derive(Debug, Clone, Copy, PartialEq, Eq, Structural)]
pub struct Modifiers {
    pub shift: bool,
    pub control: bool,
    pub alt: bool,
    pub logo: bool,
}

impl Default for Modifiers {
    fn default() -> (mods: Self)
        ensures
            mods == Modifiers::none(),
    {
        Modifiers { shift: false, control: false, alt: false, logo: false }
    }
}

impl Modifiers {
    /// No modifier at all.
    pub open spec fn none() -> Self {
        Modifiers { shift: false, control: false, alt: false, logo: false }
    }

    /// Whether a modifier is held that makes a character something else than text.
    pub open spec fn is_command(self) -> bool {
        self.control || self.alt || self.logo
    }

    /// The modifiers as a number: one more than the sum of their weights.
    pub open spec fn value(self) -> nat {
        1 + (if self.shift {
            1nat
        } else {
            0
        }) + (if self.alt {
            2nat
        } else {
            0
        }) + (if self.control {
            4nat
        } else {
            0
        }) + (if self.logo {
            8nat
        } else {
            0
        })
    }
}

/// What an application has asked to be told of keys.
#[derive(Debug, Clone, Copy, PartialEq, Eq, Structural)]
pub struct KeyboardEnhancements {
    pub kitty_flags: u16,
    pub modify_other_keys: u16,
    pub format_other_keys: u16,
    pub report_all_keys: bool,
    pub application_keypad: bool,
}

impl Default for KeyboardEnhancements {
    fn default() -> (enh: Self)
        ensures
            enh == (KeyboardEnhancements {
                kitty_flags: 0,
                modify_other_keys: 0,
                format_other_keys: 0,
                report_all_keys: false,
                application_keypad: false,
            }),
    {
        KeyboardEnhancements {
            kitty_flags: 0,
            modify_other_keys: 0,
            format_other_keys: 0,
            report_all_keys: false,
            application_keypad: false,
        }
    }
}

/// A shortcut of the window that cannot be changed.
#[derive(Debug, Clone, Copy, PartialEq, Eq, Structural)]
pub enum ChromeShortcut {
    CommandPalette,
    Help,
    TabSwitcher,
    Debug,
}

/// A letter from `A` to `Z` as its small form; any other character as it is.
pub open spec fn ascii_lower(c: char) -> char {
    if 'A' <= c <= 'Z' {
        (c as u32 + 32) as char
    } else {
        c
    }
}

pub(crate) fn to_ascii_lower(c: char) -> (l: char)
    ensures
        l == ascii_lower(c),
{
    if 'A' <= c && c <= 'Z' {
        (c as u8 + 32) as char
    } else {
        c
    }
}

/// The shortcut of the window that a key is, if any.
pub open spec fn chrome_shortcut_of(key: Key, mods: Modifiers) -> Option<ChromeShortcut> {
    match key {
        Key::Named(named) => if named == Named::F12 {
            Some(ChromeShortcut::Debug)
        } else {
            None
        },
        Key::Character(s) => if !mods.control || !mods.shift || s@.len() == 0 {
            None
        } else {
            let c = ascii_lower(s@[0]);
            if c == 'p' {
                Some(ChromeShortcut::CommandPalette)
            } else if c == '/' || c == '?' {
                Some(ChromeShortcut::Help)
            } else if c == 'l' {
                Some(ChromeShortcut::TabSwitcher)
            } else {
                None
            }
        },
        Key::Unidentified => None,
    }
}

/// The shortcut of the window that a key is, if any.
pub fn chrome_shortcut(key: &Key, mods: Modifiers) -> (shortcut: Option<ChromeShortcut>)
    ensures
        shortcut == chrome_shortcut_of(*key, mods),
{
    match key {
        Key::Named(named) => {
            if *named == Named::F12 {
                Some(ChromeShortcut::Debug)
            } else {
                None
            }
        },
        Key::Character(s) => {
            if !mods.control || !mods.shift {
                return None;
            }
            let chars = chars_of(s.as_str());
            if chars.len() == 0 {
                return None;
            }
            let c = to_ascii_lower(chars[0]);
            if c == 'p' {
                Some(ChromeShortcut::CommandPalette)
            } else if c == '/' || c == '?' {
                Some(ChromeShortcut::Help)
            } else if c == 'l' {
                Some(ChromeShortcut::TabSwitcher)
            } else {
                None
            }
        },
        Key::Unidentified => None,
    }
}

/// The name of a key in a shortcut.
pub open spec fn shortcut_name(named: Named) -> Option<Seq<char>> {
    match named {
        Named::Tab => Some("tab"@),
        Named::Enter => Some("enter"@),
        Named::Escape => Some("escape"@),
        Named::Backspace => Some("backspace"@),
        Named::Delete => Some("delete"@),
        Named::Insert => Some("insert"@),
        Named::Home => Some("home"@),
        Named::End => Some("end"@),
        Named::PageUp => Some("pageup"@),
        Named::PageDown => Some("pagedown"@),
        Named::ArrowUp => Some("up"@),
        Named::ArrowDown => Some("down"@),
        Named::ArrowLeft => Some("left"@),
        Named::ArrowRight => Some("right"@),
        Named::Space => Some("space"@),
        Named::F1 => Some("f1"@),
        Named::F2 => Some("f2"@),
        Named::F3 => Some("f3"@),
        Named::F4 => Some("f4"@),
        Named::F5 => Some("f5"@),
        Named::F6 => Some("f6"@),
        Named::F7 => Some("f7"@),
        Named::F8 => Some("f8"@),
        Named::F9 => Some("f9"@),
        Named::F10 => Some("f10"@),
        Named::F11 => Some("f11"@),
        Named::F12 => Some("f12"@),
        Named::Other => None,
    }
}

fn shortcut_name_of(named: Named) -> (name: Option<&'static str>)
    ensures
        name is Some <==> shortcut_name(named) is Some,
        name matches Some(name) ==> shortcut_name(named) == Some(name@),
{
    match named {
        Named::Tab => Some("tab"),
        Named::Enter => Some("enter"),
        Named::Escape => Some("escape"),
        Named::Backspace => Some("backspace"),
        Named::Delete => Some("delete"),
        Named::Insert => Some("insert"),
        Named::Home => Some("home"),
        Named::End => Some("end"),
        Named::PageUp => Some("pageup"),
        Named::PageDown => Some("pagedown"),
        Named::ArrowUp => Some("up"),
        Named::ArrowDown => Some("down"),
        Named::ArrowLeft => Some("left"),
        Named::ArrowRight => Some("right"),
        Named::Space => Some("space"),
        Named::F1 => Some("f1"),
        Named::F2 => Some("f2"),
        Named::F3 => Some("f3"),
        Named::F4 => Some("f4"),
        Named::F5 => Some("f5"),
        Named::F6 => Some("f6"),
        Named::F7 => Some("f7"),
        Named::F8 => Some("f8"),
        Named::F9 => Some("f9"),
        Named::F10 => Some("f10"),
        Named::F11 => Some("f11"),
        Named::F12 => Some("f12"),
        Named::Other => None,
    }
}

/// The modifiers of a shortcut, as text.
pub open spec fn modifier_names(mods: Modifiers) -> Seq<char> {
    (if mods.control {
        "ctrl+"@
    } else {
        Seq::empty()
    }) + (if mods.shift {
        "shift+"@
    } else {
        Seq::empty()
    }) + (if mods.alt {
        "alt+"@
    } else {
        Seq::empty()
    }) + (if mods.logo {
        "super+"@
    } else {
        Seq::empty()
    })
}

/// The shortcut that a key press is, as text. Nothing for text that is typed, and for
/// keys without a name.
pub open spec fn binding_of(key: Key, mods: Modifiers) -> Option<Seq<char>> {
    match key {
        Key::Character(s) => if !mods.is_command() || s@.len() == 0 {
            None
        } else if ascii_lower(s@[0]) == '\\' {
            Some(modifier_names(mods) + "backslash"@)
        } else {
            Some(modifier_names(mods) + seq![ascii_lower(s@[0])])
        },
        Key::Named(named) => match shortcut_name(named) {
            Some(name) => Some(modifier_names(mods) + name),
            None => None,
        },
        Key::Unidentified => None,
    }
}

fn modifiers_text(mods: Modifiers) -> (text: String)
    ensures
        text@ == modifier_names(mods),
{
    let mut text = String::new();
    proof {
        assert(text@ =~= Seq::<char>::empty());
    }
    if mods.control {
        append_text(&mut text, "ctrl+");
    }
    if mods.shift {
        append_text(&mut text, "shift+");
    }
    if mods.alt {
        append_text(&mut text, "alt+");
    }
    if mods.logo {
        append_text(&mut text, "super+");
    }
    proof {
        assert(text@ =~= modifier_names(mods));
    }
    text
}

/// The shortcut that a key press is, in the form in which shortcuts are written down:
/// the modifiers, then the key, in small letters, with a plus between them.
pub fn key_to_binding_string(key: &Key, mods: Modifiers) -> (binding: Option<String>)
    ensures
        binding is Some <==> binding_of(*key, mods) is Some,
        binding matches Some(text) ==> binding_of(*key, mods) == Some(text@),
{
    match key {
        Key::Character(s) => {
            if !(mods.control || mods.alt || mods.logo) {
                return None;
            }
            let chars = chars_of(s.as_str());
            if chars.len() == 0 {
                return None;
            }
            let c = to_ascii_lower(chars[0]);
            let mut binding = modifiers_text(mods);
            if c == '\\' {
                append_text(&mut binding, "backslash");
            } else {
                binding.push(c);
                proof {
                    assert(modifier_names(mods).push(c) =~= modifier_names(mods) + seq![c]);
                }
            }
            Some(binding)
        },
        Key::Named(named) => {
            match shortcut_name_of(*named) {
                Some(name) => {
                    let mut binding = modifiers_text(mods);
                    append_text(&mut binding, name);
                    Some(binding)
                },
                None => None,
            }
        },
        Key::Unidentified => None,
    }
}

/// The modifiers as a number, as reports give them.
pub fn keyboard_modifier_value(mods: Modifiers) -> (value: u8)
    ensures
        value == mods.value(),
{
    let mut value: u8 = 1;
    if mods.shift {
        value = value + 1;
    }
    if mods.alt {
        value = value + 2;
    }
    if mods.control {
        value = value + 4;
    }
    if mods.logo {
        value = value + 8;
    }
    value
}

/// How a key that moves or edits is reported.
#[derive(Debug, Clone, Copy, PartialEq, Eq, Structural)]
pub enum FunctionForm {
    /// A cursor key, by its last character.
    Cursor(u8),
    /// An editing or function key, by its number.
    Tilde(u8),
    /// One of the first four function keys, by its last character.
    Function(u8),
}

/// How a key that moves or edits is reported, if it is one.
pub open spec fn function_form(named: Named) -> Option<FunctionForm> {
    match named {
        Named::ArrowUp => Some(FunctionForm::Cursor('A' as u8)),
        Named::ArrowDown => Some(FunctionForm::Cursor('B' as u8)),
        Named::ArrowRight => Some(FunctionForm::Cursor('C' as u8)),
        Named::ArrowLeft => Some(FunctionForm::Cursor('D' as u8)),
        Named::Home => Some(FunctionForm::Cursor('H' as u8)),
        Named::End => Some(FunctionForm::Cursor('F' as u8)),
        Named::PageUp => Some(FunctionForm::Tilde(5)),
        Named::PageDown => Some(FunctionForm::Tilde(6)),
        Named::Delete => Some(FunctionForm::Tilde(3)),
        Named::Insert => Some(FunctionForm::Tilde(2)),
        Named::F1 => Some(FunctionForm::Function('P' as u8)),
        Named::F2 => Some(FunctionForm::Function('Q' as u8)),
        Named::F3 => Some(FunctionForm::Function('R' as u8)),
        Named::F4 => Some(FunctionForm::Function('S' as u8)),
        Named::F5 => Some(FunctionForm::Tilde(15)),
        Named::F6 => Some(FunctionForm::Tilde(17)),
        Named::F7 => Some(FunctionForm::Tilde(18)),
        Named::F8 => Some(FunctionForm::Tilde(19)),
        Named::F9 => Some(FunctionForm::Tilde(20)),
        Named::F10 => Some(FunctionForm::Tilde(21)),
        Named::F11 => Some(FunctionForm::Tilde(23)),
        Named::F12 => Some(FunctionForm::Tilde(24)),
        _ => None,
    }
}

/// What follows the control sequence introducer.
pub open spec fn csi(body: Seq<u8>) -> Seq<u8> {
    seq![27u8, '[' as u8] + body
}

/// A single shift to the third set, with a character.
pub open spec fn ss3(last: u8) -> Seq<u8> {
    seq![27u8, 'O' as u8, last]
}

/// What is sent for a key that moves or edits: with modifiers they are a parameter;
/// without, a cursor key depends on the mode of the cursor keys.
pub open spec fn function_key(
    named: Named,
    mods: Modifiers,
    app_cursor: bool,
    force_modifier: bool,
) -> Option<Seq<u8>> {
    let modified = force_modifier || mods != Modifiers::none();
    match function_form(named) {
        None => None,
        Some(FunctionForm::Tilde(code)) => if modified {
            Some(csi(decimal(code as nat) + seq![';' as u8] + decimal(mods.value()) + seq!['~' as u8]))
        } else {
            Some(csi(decimal(code as nat) + seq!['~' as u8]))
        },
        Some(FunctionForm::Cursor(last)) => if modified {
            Some(csi(seq!['1' as u8, ';' as u8] + decimal(mods.value()) + seq![last]))
        } else if app_cursor {
            Some(ss3(last))
        } else {
            Some(csi(seq![last]))
        },
        Some(FunctionForm::Function(last)) => if modified {
            Some(csi(seq!['1' as u8, ';' as u8] + decimal(mods.value()) + seq![last]))
        } else {
            Some(ss3(last))
        },
    }
}

fn function_form_of(named: Named) -> (form: Option<FunctionForm>)
    ensures
        form == function_form(named),
{
    match named {
        Named::ArrowUp => Some(FunctionForm::Cursor('A' as u8)),
        Named::ArrowDown => Some(FunctionForm::Cursor('B' as u8)),
        Named::ArrowRight => Some(FunctionForm::Cursor('C' as u8)),
        Named::ArrowLeft => Some(FunctionForm::Cursor('D' as u8)),
        Named::Home => Some(FunctionForm::Cursor('H' as u8)),
        Named::End => Some(FunctionForm::Cursor('F' as u8)),
        Named::PageUp => Some(FunctionForm::Tilde(5)),
        Named::PageDown => Some(FunctionForm::Tilde(6)),
        Named::Delete => Some(FunctionForm::Tilde(3)),
        Named::Insert => Some(FunctionForm::Tilde(2)),
        Named::F1 => Some(FunctionForm::Function('P' as u8)),
        Named::F2 => Some(FunctionForm::Function('Q' as u8)),
        Named::F3 => Some(FunctionForm::Function('R' as u8)),
        Named::F4 => Some(FunctionForm::Function('S' as u8)),
        Named::F5 => Some(FunctionForm::Tilde(15)),
        Named::F6 => Some(FunctionForm::Tilde(17)),
        Named::F7 => Some(FunctionForm::Tilde(18)),
        Named::F8 => Some(FunctionForm::Tilde(19)),
        Named::F9 => Some(FunctionForm::Tilde(20)),
        Named::F10 => Some(FunctionForm::Tilde(21)),
        Named::F11 => Some(FunctionForm::Tilde(23)),
        Named::F12 => Some(FunctionForm::Tilde(24)),
        _ => None,
    }
}

fn ss3_bytes(last: u8) -> (bytes: Vec<u8>)
    ensures
        bytes@ == ss3(last),
{
    vec![27, 'O' as u8, last]
}

fn modified_form(mods: Modifiers, last: u8) -> (bytes: Vec<u8>)
    ensures
        bytes@ == csi(seq!['1' as u8, ';' as u8] + decimal(mods.value()) + seq![last]),
{
    let mut bytes: Vec<u8> = vec![27, '[' as u8, '1' as u8, ';' as u8];
    push_decimal(&mut bytes, keyboard_modifier_value(mods) as u64);
    bytes.push(last);
    proof {
        assert(bytes@ =~= csi(
            seq!['1' as u8, ';' as u8] + decimal(mods.value()) + seq![last],
        ));
    }
    bytes
}

fn tilde_form(mods: Modifiers, modified: bool, code: u8) -> (bytes: Vec<u8>)
    ensures
        modified ==> bytes@ == csi(
            decimal(code as nat) + seq![';' as u8] + decimal(mods.value()) + seq!['~' as u8],
        ),
        !modified ==> bytes@ == csi(decimal(code as nat) + seq!['~' as u8]),
{
    let mut bytes: Vec<u8> = vec![27, '[' as u8];
    push_decimal(&mut bytes, code as u64);
    if modified {
        bytes.push(';' as u8);
        push_decimal(&mut bytes, keyboard_modifier_value(mods) as u64);
    }
    bytes.push('~' as u8);
    proof {
        if modified {
            assert(bytes@ =~= csi(
                decimal(code as nat) + seq![';' as u8] + decimal(mods.value()) + seq!['~' as u8],
            ));
        } else {
            assert(bytes@ =~= csi(decimal(code as nat) + seq!['~' as u8]));
        }
    }
    bytes
}

/// What is sent for a key that moves or edits.
pub fn legacy_function_key_sequence(
    named: &Named,
    mods: Modifiers,
    app_cursor: bool,
    force_modifier: bool,
) -> (sent: Option<Vec<u8>>)
    ensures
        opt_bytes(sent) == function_key(*named, mods, app_cursor, force_modifier),
{
    let modified = force_modifier || mods.shift || mods.alt || mods.control || mods.logo;
    match function_form_of(*named) {
        None => None,
        Some(FunctionForm::Tilde(code)) => Some(tilde_form(mods, modified, code)),
        Some(FunctionForm::Cursor(last)) => {
            if modified {
                Some(modified_form(mods, last))
            } else if app_cursor {
                Some(ss3_bytes(last))
            } else {
                let bytes: Vec<u8> = vec![27, '[' as u8, last];
                proof {
                    assert(bytes@ =~= csi(seq![last]));
                }
                Some(bytes)
            }
        },
        Some(FunctionForm::Function(last)) => {
            if modified {
                Some(modified_form(mods, last))
            } else {
                Some(ss3_bytes(last))
            }
        },
    }
}

pub open spec fn opt_bytes(bytes: Option<Vec<u8>>) -> Option<Seq<u8>> {
    match bytes {
        Some(bytes) => Some(bytes@),
        None => None,
    }
}

pub open spec fn opt_chars(text: Option<&str>) -> Option<Seq<char>> {
    match text {
        Some(text) => Some(text@),
        None => None,
    }
}

/// The code of a key that gives text: its character without shift, or a control code.
pub open spec fn base_code(key: Key) -> Option<u32> {
    match key {
        Key::Character(s) => if s@.len() == 0 {
            None
        } else {
            Some(lower_char(s@[0]) as u32)
        },
        Key::Named(Named::Escape) => Some(27),
        Key::Named(Named::Enter) => Some(13),
        Key::Named(Named::Tab) => Some(9),
        Key::Named(Named::Backspace) => Some(127),
        Key::Named(Named::Space) => Some(32),
        _ => None,
    }
}

/// The code of a key that gives text, without shift.
pub fn kitty_text_key_code(key: &Key) -> (code: Option<u32>)
    ensures
        code == base_code(*key),
{
    match key {
        Key::Character(s) => {
            let chars = chars_of(s.as_str());
            if chars.len() == 0 {
                None
            } else {
                Some(lowercase_char(chars[0]) as u32)
            }
        },
        Key::Named(Named::Escape) => Some(27),
        Key::Named(Named::Enter) => Some(13),
        Key::Named(Named::Tab) => Some(9),
        Key::Named(Named::Backspace) => Some(127),
        Key::Named(Named::Space) => Some(32),
        _ => None,
    }
}

/// Whether a character is a control code.
pub open spec fn is_control(c: char) -> bool {
    (c as u32) < 32 || 127 <= c as u32 <= 159
}

pub(crate) fn is_control_char(c: char) -> (v: bool)
    ensures
        v == is_control(c),
{
    let n: u32 = c as u32;
    n < 32 || (127 <= n && n <= 159)
}

/// The first character of a text that is no control code.
pub open spec fn first_visible(s: Seq<char>) -> Option<char>
    decreases s.len(),
{
    if s.len() == 0 {
        None
    } else if !is_control(s[0]) {
        Some(s[0])
    } else {
        first_visible(s.drop_first())
    }
}

fn find_visible(s: &[char]) -> (c: Option<char>)
    ensures
        c == first_visible(s@),
{
    let mut i: usize = 0;
    proof {
        assert(s@.subrange(0, s@.len() as int) =~= s@);
    }
    while i < s.len()
        invariant
            i <= s@.len(),
            first_visible(s@.subrange(i as int, s@.len() as int)) == first_visible(s@),
        decreases s@.len() - i,
    {
        proof {
            let rest = s@.subrange(i as int, s@.len() as int);
            assert(rest[0] == s@[i as int]);
            assert(rest.drop_first() =~= s@.subrange(i + 1, s@.len() as int));
        }
        if !is_control_char(s[i]) {
            return Some(s[i]);
        }
        i = i + 1;
    }
    None
}

/// The code of a key that gives text, with shift: what was typed comes first.
pub open spec fn typed_code(key: Key, mods: Modifiers, text: Option<Seq<char>>) -> Option<u32> {
    if base_code(key) is None {
        None
    } else if mods.shift && text is Some && first_visible(text->0) is Some {
        Some(first_visible(text->0)->0 as u32)
    } else if mods.shift && key is Character {
        Some(upper_char(key->Character_0@[0]) as u32)
    } else {
        base_code(key)
    }
}

/// The code of a key that gives text, with shift.
pub fn text_key_code(key: &Key, mods: Modifiers, text: Option<&str>) -> (code: Option<u32>)
    ensures
        code == typed_code(*key, mods, opt_chars(text)),
{
    let base = kitty_text_key_code(key);
    if base.is_none() {
        return None;
    }
    if mods.shift {
        if let Some(text) = text {
            let chars = chars_of(text);
            if let Some(c) = find_visible(chars.as_slice()) {
                return Some(c as u32);
            }
        }
        if let Key::Character(s) = key {
            let chars = chars_of(s.as_str());
            return Some(uppercase_char(chars[0]) as u32);
        }
    }
    base
}

/// A report of a key: its code, then the modifiers.
pub open spec fn code_report(code: u32, mods: Modifiers) -> Seq<u8> {
    csi(decimal(code as nat) + seq![';' as u8] + decimal(mods.value()) + seq!['u' as u8])
}

/// The older report of a key: the modifiers, then its code.
pub open spec fn other_key_report(code: u32, mods: Modifiers) -> Seq<u8> {
    csi(
        seq!['2' as u8, '7' as u8, ';' as u8] + decimal(mods.value()) + seq![';' as u8] + decimal(
            code as nat,
        ) + seq!['~' as u8],
    )
}

fn code_report_bytes(code: u32, mods: Modifiers) -> (bytes: Vec<u8>)
    ensures
        bytes@ == code_report(code, mods),
{
    let mut bytes: Vec<u8> = vec![27, '[' as u8];
    push_decimal(&mut bytes, code as u64);
    bytes.push(';' as u8);
    push_decimal(&mut bytes, keyboard_modifier_value(mods) as u64);
    bytes.push('u' as u8);
    proof {
        assert(bytes@ =~= code_report(code, mods));
    }
    bytes
}

fn other_key_report_bytes(code: u32, mods: Modifiers) -> (bytes: Vec<u8>)
    ensures
        bytes@ == other_key_report(code, mods),
{
    let mut bytes: Vec<u8> = vec![27, '[' as u8, '2' as u8, '7' as u8, ';' as u8];
    push_decimal(&mut bytes, keyboard_modifier_value(mods) as u64);
    bytes.push(';' as u8);
    push_decimal(&mut bytes, code as u64);
    bytes.push('~' as u8);
    proof {
        assert(bytes@ =~= other_key_report(code, mods));
    }
    bytes
}

/// The report of a key under the Kitty keyboard protocol, where an application wants
/// escape codes told apart (bit 0) or all keys reported (bit 3), and the key needs one.
pub open spec fn kitty_report(key: Key, mods: Modifiers, flags: u16) -> Option<Seq<u8>> {
    let disambiguate = flags % 2 == 1;
    let report_all = (flags / 8) % 2 == 1;
    let has_legacy_code = key is Named && (key->Named_0 == Named::Enter || key->Named_0
        == Named::Tab || key->Named_0 == Named::Backspace);
    if base_code(key) is Some && (report_all || (disambiguate && !has_legacy_code && (mods.is_command()
        || key == Key::Named(Named::Escape)))) {
        Some(code_report(base_code(key)->0, mods))
    } else {
        None
    }
}

/// The report of a key under the Kitty keyboard protocol, if it needs one.
pub fn kitty_encode_key(key: &Key, mods: Modifiers, kitty_flags: u16) -> (report: Option<Vec<u8>>)
    ensures
        opt_bytes(report) == kitty_report(*key, mods, kitty_flags),
{
    let disambiguate = kitty_flags % 2 == 1;
    let report_all = (kitty_flags / 8) % 2 == 1;
    if !disambiguate && !report_all {
        return None;
    }
    let code: u32 = match kitty_text_key_code(key) {
        Some(code) => code,
        None => {
            return None;
        },
    };
    let (has_legacy_code, is_escape) = match key {
        Key::Named(named) => (
            *named == Named::Enter || *named == Named::Tab || *named == Named::Backspace,
            *named == Named::Escape,
        ),
        _ => (false, false),
    };
    if has_legacy_code && !report_all {
        return None;
    }
    if report_all || is_escape || mods.control || mods.alt || mods.logo {
        Some(code_report_bytes(code, mods))
    } else {
        None
    }
}

/// Whether a level of reporting other keys asks for a report.
pub open spec fn reports_other_key(level: u16, mods: Modifiers) -> bool {
    if level == 0 {
        false
    } else if level == 1 {
        mods.alt || mods.logo
    } else if level == 2 {
        mods != Modifiers::none()
    } else {
        true
    }
}

/// The report of a key under xterm's rules for other keys, if it needs one.
pub open spec fn xterm_report(
    key: Key,
    mods: Modifiers,
    text: Option<Seq<char>>,
    level: u16,
    format: u16,
    report_all: bool,
) -> Option<Seq<u8>> {
    match typed_code(key, mods, text) {
        None => None,
        Some(code) => if !report_all && !reports_other_key(level, mods) {
            None
        } else if format == 1 || report_all {
            Some(code_report(code, mods))
        } else {
            Some(other_key_report(code, mods))
        },
    }
}

/// The report of a key under xterm's rules for other keys, if it needs one.
pub fn xterm_modify_other_keys_encode(
    key: &Key,
    mods: Modifiers,
    text: Option<&str>,
    modify_other_keys: u16,
    format_other_keys: u16,
    report_all_keys: bool,
) -> (report: Option<Vec<u8>>)
    ensures
        opt_bytes(report) == xterm_report(
            *key,
            mods,
            opt_chars(text),
            modify_other_keys,
            format_other_keys,
            report_all_keys,
        ),
{
    let code: u32 = match text_key_code(key, mods, text) {
        Some(code) => code,
        None => {
            return None;
        },
    };
    let wanted = if report_all_keys {
        true
    } else if modify_other_keys == 0 {
        false
    } else if modify_other_keys == 1 {
        mods.alt || mods.logo
    } else if modify_other_keys == 2 {
        mods.control || mods.alt || mods.logo || mods.shift
    } else {
        true
    };
    if !wanted {
        None
    } else if format_other_keys == 1 || report_all_keys {
        Some(code_report_bytes(code, mods))
    } else {
        Some(other_key_report_bytes(code, mods))
    }
}

/// The control code of a character with Ctrl, by the low byte of its number.
pub open spec fn control_code(c: char) -> Option<u8> {
    let b = (ascii_lower(c) as u32) % 256;
    if 97 <= b <= 122 {
        Some((b - 96) as u8)
    } else if b == '@' as u32 || b == ' ' as u32 {
        Some(0u8)
    } else if b == '[' as u32 {
        Some(27u8)
    } else if b == '\\' as u32 {
        Some(28u8)
    } else if b == ']' as u32 {
        Some(29u8)
    } else if b == '^' as u32 {
        Some(30u8)
    } else if b == '_' as u32 {
        Some(31u8)
    } else {
        None
    }
}

fn control_code_of(c: char) -> (code: Option<u8>)
    ensures
        code == control_code(c),
{
    let b: u32 = (to_ascii_lower(c) as u32) % 256;
    if 97 <= b && b <= 122 {
        Some((b - 96) as u8)
    } else if b == '@' as u32 || b == ' ' as u32 {
        Some(0)
    } else if b == '[' as u32 {
        Some(27)
    } else if b == '\\' as u32 {
        Some(28)
    } else if b == ']' as u32 {
        Some(29)
    } else if b == '^' as u32 {
        Some(30)
    } else if b == '_' as u32 {
        Some(31)
    } else {
        None
    }
}

/// An escape before some bytes where Alt is held.
pub open spec fn with_alt(mods: Modifiers, bytes: Seq<u8>) -> Seq<u8> {
    if mods.alt {
        seq![27u8] + bytes
    } else {
        bytes
    }
}

/// What a key with a control code of its own is sent as, without reports.
pub open spec fn control_key(named: Named, mods: Modifiers, keypad: bool) -> Option<Seq<u8>> {
    match named {
        Named::Enter => if keypad {
            Some(ss3('M' as u8))
        } else {
            Some(seq![13u8])
        },
        Named::Backspace => Some(
            seq![
                if mods.control {
                    8u8
                } else {
                    127u8
                },
            ],
        ),
        Named::Tab => if mods.shift {
            Some(csi(seq!['Z' as u8]))
        } else {
            Some(seq![9u8])
        },
        Named::Escape => Some(seq![27u8]),
        Named::Space => Some(
            seq![
                if mods.control {
                    0u8
                } else {
                    32u8
                },
            ],
        ),
        _ => None,
    }
}

/// What a key is sent as, without reports.
pub open spec fn plain_key(
    key: Key,
    location: Location,
    mods: Modifiers,
    text: Option<Seq<char>>,
    app_cursor: bool,
    enh: KeyboardEnhancements,
) -> Option<Seq<u8>> {
    match key {
        Key::Named(named) => match control_key(
            named,
            mods,
            enh.application_keypad && location == Location::Numpad,
        ) {
            Some(bytes) => Some(with_alt(mods, bytes)),
            None => function_key(named, mods, app_cursor, enh.report_all_keys),
        },
        Key::Character(s) => if s@.len() == 0 {
            None
        } else if mods.control && control_code(s@[0]) is Some {
            Some(with_alt(mods, seq![control_code(s@[0])->0]))
        } else if mods.control {
            encoded(text)
        } else if text is Some {
            Some(with_alt(mods, encode_utf8(text->0)))
        } else {
            Some(with_alt(mods, encode_utf8(s@)))
        },
        Key::Unidentified => encoded(text),
    }
}

pub open spec fn encoded(text: Option<Seq<char>>) -> Option<Seq<u8>> {
    match text {
        Some(text) => Some(encode_utf8(text)),
        None => None,
    }
}

/// What an application is sent for a key press.
pub open spec fn key_bytes(
    key: Key,
    location: Location,
    mods: Modifiers,
    text: Option<Seq<char>>,
    app_cursor: bool,
    enh: KeyboardEnhancements,
) -> Option<Seq<u8>> {
    let other = xterm_report(
        key,
        mods,
        text,
        enh.modify_other_keys,
        enh.format_other_keys,
        enh.report_all_keys,
    );
    if kitty_report(key, mods, enh.kitty_flags) is Some {
        kitty_report(key, mods, enh.kitty_flags)
    } else if other is Some {
        other
    } else {
        plain_key(key, location, mods, text, app_cursor, enh)
    }
}

fn control_key_bytes(named: Named, mods: Modifiers, keypad: bool) -> (bytes: Option<Vec<u8>>)
    ensures
        opt_bytes(bytes) == control_key(named, mods, keypad),
{
    match named {
        Named::Enter => {
            if keypad {
                Some(ss3_bytes('M' as u8))
            } else {
                Some(vec![13])
            }
        },
        Named::Backspace => {
            let code: u8 = if mods.control {
                8
            } else {
                127
            };
            Some(vec![code])
        },
        Named::Tab => {
            if mods.shift {
                let bytes: Vec<u8> = vec![27, '[' as u8, 'Z' as u8];
                proof {
                    assert(bytes@ =~= csi(seq!['Z' as u8]));
                }
                Some(bytes)
            } else {
                Some(vec![9])
            }
        },
        Named::Escape => Some(vec![27]),
        Named::Space => {
            let code: u8 = if mods.control {
                0
            } else {
                32
            };
            Some(vec![code])
        },
        _ => None,
    }
}

fn alt_bytes(mods: Modifiers, bytes: &[u8]) -> (sent: Vec<u8>)
    ensures
        sent@ == with_alt(mods, bytes@),
{
    let mut sent: Vec<u8> = Vec::new();
    if mods.alt {
        sent.push(27);
    }
    crate::text::push_bytes(&mut sent, bytes);
    proof {
        assert(sent@ =~= with_alt(mods, bytes@));
    }
    sent
}

fn text_bytes(text: Option<&str>) -> (bytes: Option<Vec<u8>>)
    ensures
        opt_bytes(bytes) == encoded(opt_chars(text)),
{
    match text {
        Some(text) => Some(crate::text::copy_bytes(text.as_bytes())),
        None => None,
    }
}

fn plain_key_bytes(
    key: &Key,
    location: Location,
    mods: Modifiers,
    text: Option<&str>,
    app_cursor: bool,
    enh: KeyboardEnhancements,
) -> (bytes: Option<Vec<u8>>)
    ensures
        opt_bytes(bytes) == plain_key(*key, location, mods, opt_chars(text), app_cursor, enh),
{
    match key {
        Key::Named(named) => {
            let keypad = enh.application_keypad && location == Location::Numpad;
            match control_key_bytes(*named, mods, keypad) {
                Some(bytes) => Some(alt_bytes(mods, bytes.as_slice())),
                None => legacy_function_key_sequence(named, mods, app_cursor, enh.report_all_keys),
            }
        },
        Key::Character(s) => {
            let chars = chars_of(s.as_str());
            if chars.len() == 0 {
                return None;
            }
            if mods.control {
                return match control_code_of(chars[0]) {
                    Some(code) => {
                        let bytes: Vec<u8> = vec![code];
                        proof {
                            assert(bytes@ =~= seq![code]);
                        }
                        Some(alt_bytes(mods, bytes.as_slice()))
                    },
                    None => text_bytes(text),
                };
            }
            match text {
                Some(text) => Some(alt_bytes(mods, text.as_bytes())),
                None => Some(alt_bytes(mods, s.as_str().as_bytes())),
            }
        },
        Key::Unidentified => text_bytes(text),
    }
}

/// What an application is sent for a key press. The reports that it asked for come
/// first; a key without one is sent as terminals have always sent it.
pub fn encode_key(
    key: &Key,
    location: Location,
    mods: Modifiers,
    text: Option<&str>,
    app_cursor: bool,
    enh: KeyboardEnhancements,
) -> (sent: Option<Vec<u8>>)
    ensures
        opt_bytes(sent) == key_bytes(*key, location, mods, opt_chars(text), app_cursor, enh),
{
    if let Some(report) = kitty_encode_key(key, mods, enh.kitty_flags) {
        return Some(report);
    }
    if let Some(report) = xterm_modify_other_keys_encode(
        key,
        mods,
        text,
        enh.modify_other_keys,
        enh.format_other_keys,
        enh.report_all_keys,
    ) {
        return Some(report);
    }
    plain_key_bytes(key, location, mods, text, app_cursor, enh)
}

/// Where all keys are reported, a key that gives text is never sent as plain text.
pub proof fn reported_keys_are_not_sent_as_text(
    key: Key,
    location: Location,
    mods: Modifiers,
    text: Option<Seq<char>>,
    app_cursor: bool,
    enh: KeyboardEnhancements,
)
    requires
        base_code(key) is Some,
        (enh.kitty_flags / 8) % 2 == 1 || enh.report_all_keys,
    ensures
        key_bytes(key, location, mods, text, app_cursor, enh) is Some,
        exists|code: u32|
            key_bytes(key, location, mods, text, app_cursor, enh) == Some(
                #[trigger] code_report(code, mods),
            ),
{
    if (enh.kitty_flags / 8) % 2 == 1 {
        let code = base_code(key)->0;
        assert(kitty_report(key, mods, enh.kitty_flags) == Some(code_report(code, mods)));
    } else if kitty_report(key, mods, enh.kitty_flags) is Some {
        let code = base_code(key)->0;
        assert(kitty_report(key, mods, enh.kitty_flags) == Some(code_report(code, mods)));
    } else {
        let code = typed_code(key, mods, text)->0;
        assert(xterm_report(
            key,
            mods,
            text,
            enh.modify_other_keys,
            enh.format_other_keys,
            enh.report_all_keys,
        ) == Some(code_report(code, mods)));
    }
}

/// Different modifiers give different numbers.
pub proof fn modifier_values_tell_modifiers_apart(a: Modifiers, b: Modifiers)
    ensures
        a.value() == b.value() ==> a == b,
        1 <= a.value() <= 16,
{
}

/// Text that is typed is never a shortcut: without Ctrl, Alt or the logo key a
/// character has no name as one.
pub proof fn typing_is_no_shortcut(s: String, mods: Modifiers)
    requires
        !mods.is_command(),
    ensures
        binding_of(Key::Character(s), mods) is None,
{
}

} // verus!
