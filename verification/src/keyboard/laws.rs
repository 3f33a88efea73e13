//! What is sent for each key, byte by byte.

use super::{
    base_code, binding_of, chrome_shortcut_of, code_report, first_visible, key_bytes,
    other_key_report, typed_code, ChromeShortcut, Key, KeyboardEnhancements, Location, Modifiers, Named,
};
use crate::outside::{lower_char, upper_char};
use crate::text::decimal;
use vstd::prelude::*;
use vstd::utf8::encode_utf8;

verus! {

/// An application that has asked for nothing.
pub open spec fn asks_nothing(enh: KeyboardEnhancements) -> bool {
    enh.kitty_flags == 0 && enh.modify_other_keys == 0 && !enh.report_all_keys
}

/// The digits of the number of some modifiers: one more than the sum of 1 for Shift, 2 for
/// Alt, 4 for Ctrl and 8 for the logo key.
pub open spec fn modifier_digits(mods: Modifiers) -> Seq<u8> {
    let shift = if mods.shift {
        1int
    } else {
        0
    };
    let alt = if mods.alt {
        2int
    } else {
        0
    };
    let control = if mods.control {
        4int
    } else {
        0
    };
    let logo = if mods.logo {
        8int
    } else {
        0
    };
    let n = 1 + shift + alt + control + logo;
    if n < 10 {
        seq![(0x30 + n) as u8]
    } else {
        seq![0x31u8, (0x30 + n - 10) as u8]
    }
}

proof fn lemma_modifier_digits(mods: Modifiers)
    ensures
        decimal(mods.value()) == modifier_digits(mods),
{
    reveal_with_fuel(decimal, 2);
    assert(decimal(mods.value()) =~= modifier_digits(mods));
}

proof fn lemma_behind_escape(code: u8)
    ensures
        seq![0x1bu8] + seq![code] == seq![0x1bu8, code],
{
    assert(seq![0x1bu8] + seq![code] =~= seq![0x1bu8, code]);
}

proof fn lemma_report(code: u32, mods: Modifiers)
    ensures
        code_report(code, mods) == seq![0x1bu8, 0x5b] + decimal(code as nat) + (seq![0x3bu8]
            + modifier_digits(mods) + seq![0x75u8]),
{
    lemma_modifier_digits(mods);
    assert(code_report(code, mods) =~= seq![0x1bu8, 0x5b] + decimal(code as nat) + (seq![0x3bu8]
        + modifier_digits(mods) + seq![0x75u8]));
}

/// Keys that move the cursor, without modifiers: `ESC [` and a letter, or `ESC O` and that
/// letter in the application mode of the cursor keys.
pub proof fn cursor_keys_are_sent_as(
    location: Location,
    text: Option<Seq<char>>,
    app_cursor: bool,
    enh: KeyboardEnhancements,
)
    requires
        asks_nothing(enh),
    ensures
        key_bytes(
            Key::Named(Named::ArrowUp),
            location,
            Modifiers::none(),
            text,
            app_cursor,
            enh,
        ) == Some(if app_cursor {
            seq![0x1bu8, 0x4f, 0x41]
        } else {
            seq![0x1bu8, 0x5b, 0x41]
        }),
        key_bytes(
            Key::Named(Named::ArrowDown),
            location,
            Modifiers::none(),
            text,
            app_cursor,
            enh,
        ) == Some(if app_cursor {
            seq![0x1bu8, 0x4f, 0x42]
        } else {
            seq![0x1bu8, 0x5b, 0x42]
        }),
        key_bytes(
            Key::Named(Named::ArrowRight),
            location,
            Modifiers::none(),
            text,
            app_cursor,
            enh,
        ) == Some(if app_cursor {
            seq![0x1bu8, 0x4f, 0x43]
        } else {
            seq![0x1bu8, 0x5b, 0x43]
        }),
        key_bytes(
            Key::Named(Named::ArrowLeft),
            location,
            Modifiers::none(),
            text,
            app_cursor,
            enh,
        ) == Some(if app_cursor {
            seq![0x1bu8, 0x4f, 0x44]
        } else {
            seq![0x1bu8, 0x5b, 0x44]
        }),
        key_bytes(
            Key::Named(Named::Home),
            location,
            Modifiers::none(),
            text,
            app_cursor,
            enh,
        ) == Some(if app_cursor {
            seq![0x1bu8, 0x4f, 0x48]
        } else {
            seq![0x1bu8, 0x5b, 0x48]
        }),
        key_bytes(
            Key::Named(Named::End),
            location,
            Modifiers::none(),
            text,
            app_cursor,
            enh,
        ) == Some(if app_cursor {
            seq![0x1bu8, 0x4f, 0x46]
        } else {
            seq![0x1bu8, 0x5b, 0x46]
        }),
{
    assert(seq![0x1bu8, 0x5b] + seq![0x41u8] =~= seq![0x1bu8, 0x5b, 0x41]);
    assert(seq![0x1bu8, 0x5b] + seq![0x42u8] =~= seq![0x1bu8, 0x5b, 0x42]);
    assert(seq![0x1bu8, 0x5b] + seq![0x43u8] =~= seq![0x1bu8, 0x5b, 0x43]);
    assert(seq![0x1bu8, 0x5b] + seq![0x44u8] =~= seq![0x1bu8, 0x5b, 0x44]);
    assert(seq![0x1bu8, 0x5b] + seq![0x48u8] =~= seq![0x1bu8, 0x5b, 0x48]);
    assert(seq![0x1bu8, 0x5b] + seq![0x46u8] =~= seq![0x1bu8, 0x5b, 0x46]);
}

/// Keys that edit and function keys, without modifiers: `ESC [`, a number and `~`, or
/// `ESC O` and a letter.
#[verifier::spinoff_prover]
pub proof fn editing_and_function_keys_are_sent_as(
    location: Location,
    text: Option<Seq<char>>,
    app_cursor: bool,
    enh: KeyboardEnhancements,
)
    requires
        asks_nothing(enh),
    ensures
        key_bytes(
            Key::Named(Named::Insert),
            location,
            Modifiers::none(),
            text,
            app_cursor,
            enh,
        ) == Some(seq![0x1bu8, 0x5b, 0x32, 0x7e]),
        key_bytes(
            Key::Named(Named::Delete),
            location,
            Modifiers::none(),
            text,
            app_cursor,
            enh,
        ) == Some(seq![0x1bu8, 0x5b, 0x33, 0x7e]),
        key_bytes(
            Key::Named(Named::PageUp),
            location,
            Modifiers::none(),
            text,
            app_cursor,
            enh,
        ) == Some(seq![0x1bu8, 0x5b, 0x35, 0x7e]),
        key_bytes(
            Key::Named(Named::PageDown),
            location,
            Modifiers::none(),
            text,
            app_cursor,
            enh,
        ) == Some(seq![0x1bu8, 0x5b, 0x36, 0x7e]),
        key_bytes(
            Key::Named(Named::F5),
            location,
            Modifiers::none(),
            text,
            app_cursor,
            enh,
        ) == Some(seq![0x1bu8, 0x5b, 0x31, 0x35, 0x7e]),
        key_bytes(
            Key::Named(Named::F6),
            location,
            Modifiers::none(),
            text,
            app_cursor,
            enh,
        ) == Some(seq![0x1bu8, 0x5b, 0x31, 0x37, 0x7e]),
        key_bytes(
            Key::Named(Named::F7),
            location,
            Modifiers::none(),
            text,
            app_cursor,
            enh,
        ) == Some(seq![0x1bu8, 0x5b, 0x31, 0x38, 0x7e]),
        key_bytes(
            Key::Named(Named::F8),
            location,
            Modifiers::none(),
            text,
            app_cursor,
            enh,
        ) == Some(seq![0x1bu8, 0x5b, 0x31, 0x39, 0x7e]),
        key_bytes(
            Key::Named(Named::F9),
            location,
            Modifiers::none(),
            text,
            app_cursor,
            enh,
        ) == Some(seq![0x1bu8, 0x5b, 0x32, 0x30, 0x7e]),
        key_bytes(
            Key::Named(Named::F10),
            location,
            Modifiers::none(),
            text,
            app_cursor,
            enh,
        ) == Some(seq![0x1bu8, 0x5b, 0x32, 0x31, 0x7e]),
        key_bytes(
            Key::Named(Named::F11),
            location,
            Modifiers::none(),
            text,
            app_cursor,
            enh,
        ) == Some(seq![0x1bu8, 0x5b, 0x32, 0x33, 0x7e]),
        key_bytes(
            Key::Named(Named::F12),
            location,
            Modifiers::none(),
            text,
            app_cursor,
            enh,
        ) == Some(seq![0x1bu8, 0x5b, 0x32, 0x34, 0x7e]),
        key_bytes(
            Key::Named(Named::F1),
            location,
            Modifiers::none(),
            text,
            app_cursor,
            enh,
        ) == Some(seq![0x1bu8, 0x4f, 0x50]),
        key_bytes(
            Key::Named(Named::F2),
            location,
            Modifiers::none(),
            text,
            app_cursor,
            enh,
        ) == Some(seq![0x1bu8, 0x4f, 0x51]),
        key_bytes(
            Key::Named(Named::F3),
            location,
            Modifiers::none(),
            text,
            app_cursor,
            enh,
        ) == Some(seq![0x1bu8, 0x4f, 0x52]),
        key_bytes(
            Key::Named(Named::F4),
            location,
            Modifiers::none(),
            text,
            app_cursor,
            enh,
        ) == Some(seq![0x1bu8, 0x4f, 0x53]),
{
    reveal_with_fuel(decimal, 2);
    assert(decimal(2) =~= seq![0x32u8]);
    assert(seq![0x1bu8, 0x5b] + (seq![0x32u8] + seq![0x7eu8]) =~= seq![0x1bu8, 0x5b, 0x32, 0x7e]);
    assert(decimal(3) =~= seq![0x33u8]);
    assert(seq![0x1bu8, 0x5b] + (seq![0x33u8] + seq![0x7eu8]) =~= seq![0x1bu8, 0x5b, 0x33, 0x7e]);
    assert(decimal(5) =~= seq![0x35u8]);
    assert(seq![0x1bu8, 0x5b] + (seq![0x35u8] + seq![0x7eu8]) =~= seq![0x1bu8, 0x5b, 0x35, 0x7e]);
    assert(decimal(6) =~= seq![0x36u8]);
    assert(seq![0x1bu8, 0x5b] + (seq![0x36u8] + seq![0x7eu8]) =~= seq![0x1bu8, 0x5b, 0x36, 0x7e]);
    assert(decimal(15) =~= seq![0x31u8, 0x35]);
    assert(seq![0x1bu8, 0x5b] + (seq![0x31u8, 0x35] + seq![0x7eu8]) =~= seq![0x1bu8, 0x5b, 0x31, 0x35, 0x7e]);
    assert(decimal(17) =~= seq![0x31u8, 0x37]);
    assert(seq![0x1bu8, 0x5b] + (seq![0x31u8, 0x37] + seq![0x7eu8]) =~= seq![0x1bu8, 0x5b, 0x31, 0x37, 0x7e]);
    assert(decimal(18) =~= seq![0x31u8, 0x38]);
    assert(seq![0x1bu8, 0x5b] + (seq![0x31u8, 0x38] + seq![0x7eu8]) =~= seq![0x1bu8, 0x5b, 0x31, 0x38, 0x7e]);
    assert(decimal(19) =~= seq![0x31u8, 0x39]);
    assert(seq![0x1bu8, 0x5b] + (seq![0x31u8, 0x39] + seq![0x7eu8]) =~= seq![0x1bu8, 0x5b, 0x31, 0x39, 0x7e]);
    assert(decimal(20) =~= seq![0x32u8, 0x30]);
    assert(seq![0x1bu8, 0x5b] + (seq![0x32u8, 0x30] + seq![0x7eu8]) =~= seq![0x1bu8, 0x5b, 0x32, 0x30, 0x7e]);
    assert(decimal(21) =~= seq![0x32u8, 0x31]);
    assert(seq![0x1bu8, 0x5b] + (seq![0x32u8, 0x31] + seq![0x7eu8]) =~= seq![0x1bu8, 0x5b, 0x32, 0x31, 0x7e]);
    assert(decimal(23) =~= seq![0x32u8, 0x33]);
    assert(seq![0x1bu8, 0x5b] + (seq![0x32u8, 0x33] + seq![0x7eu8]) =~= seq![0x1bu8, 0x5b, 0x32, 0x33, 0x7e]);
    assert(decimal(24) =~= seq![0x32u8, 0x34]);
    assert(seq![0x1bu8, 0x5b] + (seq![0x32u8, 0x34] + seq![0x7eu8]) =~= seq![0x1bu8, 0x5b, 0x32, 0x34, 0x7e]);
}

/// Where modifiers are held, keys that move or edit carry them as a second number.
#[verifier::spinoff_prover]
#[verifier::rlimit(40)]
pub proof fn modified_keys_carry_their_modifiers(
    location: Location,
    mods: Modifiers,
    text: Option<Seq<char>>,
    app_cursor: bool,
    enh: KeyboardEnhancements,
)
    requires
        asks_nothing(enh),
        mods.shift || mods.alt || mods.control || mods.logo,
    ensures
        key_bytes(
            Key::Named(Named::ArrowUp),
            location,
            mods,
            text,
            app_cursor,
            enh,
        ) == Some(seq![0x1bu8, 0x5b, 0x31, 0x3b] + modifier_digits(mods) + seq![0x41u8]),
        key_bytes(
            Key::Named(Named::ArrowDown),
            location,
            mods,
            text,
            app_cursor,
            enh,
        ) == Some(seq![0x1bu8, 0x5b, 0x31, 0x3b] + modifier_digits(mods) + seq![0x42u8]),
        key_bytes(
            Key::Named(Named::ArrowRight),
            location,
            mods,
            text,
            app_cursor,
            enh,
        ) == Some(seq![0x1bu8, 0x5b, 0x31, 0x3b] + modifier_digits(mods) + seq![0x43u8]),
        key_bytes(
            Key::Named(Named::ArrowLeft),
            location,
            mods,
            text,
            app_cursor,
            enh,
        ) == Some(seq![0x1bu8, 0x5b, 0x31, 0x3b] + modifier_digits(mods) + seq![0x44u8]),
        key_bytes(
            Key::Named(Named::Home),
            location,
            mods,
            text,
            app_cursor,
            enh,
        ) == Some(seq![0x1bu8, 0x5b, 0x31, 0x3b] + modifier_digits(mods) + seq![0x48u8]),
        key_bytes(
            Key::Named(Named::End),
            location,
            mods,
            text,
            app_cursor,
            enh,
        ) == Some(seq![0x1bu8, 0x5b, 0x31, 0x3b] + modifier_digits(mods) + seq![0x46u8]),
        key_bytes(
            Key::Named(Named::F1),
            location,
            mods,
            text,
            app_cursor,
            enh,
        ) == Some(seq![0x1bu8, 0x5b, 0x31, 0x3b] + modifier_digits(mods) + seq![0x50u8]),
        key_bytes(
            Key::Named(Named::F2),
            location,
            mods,
            text,
            app_cursor,
            enh,
        ) == Some(seq![0x1bu8, 0x5b, 0x31, 0x3b] + modifier_digits(mods) + seq![0x51u8]),
        key_bytes(
            Key::Named(Named::F3),
            location,
            mods,
            text,
            app_cursor,
            enh,
        ) == Some(seq![0x1bu8, 0x5b, 0x31, 0x3b] + modifier_digits(mods) + seq![0x52u8]),
        key_bytes(
            Key::Named(Named::F4),
            location,
            mods,
            text,
            app_cursor,
            enh,
        ) == Some(seq![0x1bu8, 0x5b, 0x31, 0x3b] + modifier_digits(mods) + seq![0x53u8]),
        key_bytes(
            Key::Named(Named::Insert),
            location,
            mods,
            text,
            app_cursor,
            enh,
        ) == Some(seq![0x1bu8, 0x5b, 0x32, 0x3b] + modifier_digits(mods) + seq![0x7eu8]),
        key_bytes(
            Key::Named(Named::Delete),
            location,
            mods,
            text,
            app_cursor,
            enh,
        ) == Some(seq![0x1bu8, 0x5b, 0x33, 0x3b] + modifier_digits(mods) + seq![0x7eu8]),
        key_bytes(
            Key::Named(Named::PageUp),
            location,
            mods,
            text,
            app_cursor,
            enh,
        ) == Some(seq![0x1bu8, 0x5b, 0x35, 0x3b] + modifier_digits(mods) + seq![0x7eu8]),
        key_bytes(
            Key::Named(Named::PageDown),
            location,
            mods,
            text,
            app_cursor,
            enh,
        ) == Some(seq![0x1bu8, 0x5b, 0x36, 0x3b] + modifier_digits(mods) + seq![0x7eu8]),
        key_bytes(
            Key::Named(Named::F5),
            location,
            mods,
            text,
            app_cursor,
            enh,
        ) == Some(seq![0x1bu8, 0x5b, 0x31, 0x35, 0x3b] + modifier_digits(mods) + seq![0x7eu8]),
        key_bytes(
            Key::Named(Named::F6),
            location,
            mods,
            text,
            app_cursor,
            enh,
        ) == Some(seq![0x1bu8, 0x5b, 0x31, 0x37, 0x3b] + modifier_digits(mods) + seq![0x7eu8]),
        key_bytes(
            Key::Named(Named::F7),
            location,
            mods,
            text,
            app_cursor,
            enh,
        ) == Some(seq![0x1bu8, 0x5b, 0x31, 0x38, 0x3b] + modifier_digits(mods) + seq![0x7eu8]),
        key_bytes(
            Key::Named(Named::F8),
            location,
            mods,
            text,
            app_cursor,
            enh,
        ) == Some(seq![0x1bu8, 0x5b, 0x31, 0x39, 0x3b] + modifier_digits(mods) + seq![0x7eu8]),
        key_bytes(
            Key::Named(Named::F9),
            location,
            mods,
            text,
            app_cursor,
            enh,
        ) == Some(seq![0x1bu8, 0x5b, 0x32, 0x30, 0x3b] + modifier_digits(mods) + seq![0x7eu8]),
        key_bytes(
            Key::Named(Named::F10),
            location,
            mods,
            text,
            app_cursor,
            enh,
        ) == Some(seq![0x1bu8, 0x5b, 0x32, 0x31, 0x3b] + modifier_digits(mods) + seq![0x7eu8]),
        key_bytes(
            Key::Named(Named::F11),
            location,
            mods,
            text,
            app_cursor,
            enh,
        ) == Some(seq![0x1bu8, 0x5b, 0x32, 0x33, 0x3b] + modifier_digits(mods) + seq![0x7eu8]),
        key_bytes(
            Key::Named(Named::F12),
            location,
            mods,
            text,
            app_cursor,
            enh,
        ) == Some(seq![0x1bu8, 0x5b, 0x32, 0x34, 0x3b] + modifier_digits(mods) + seq![0x7eu8]),
{
    lemma_modifier_digits(mods);
    reveal_with_fuel(decimal, 2);
    let m = modifier_digits(mods);
    assert(seq![0x1bu8, 0x5b] + (seq![0x31u8, 0x3b] + m + seq![0x41u8]) =~= seq![0x1bu8, 0x5b, 0x31, 0x3b] + m + seq![0x41u8]);
    assert(seq![0x1bu8, 0x5b] + (seq![0x31u8, 0x3b] + m + seq![0x42u8]) =~= seq![0x1bu8, 0x5b, 0x31, 0x3b] + m + seq![0x42u8]);
    assert(seq![0x1bu8, 0x5b] + (seq![0x31u8, 0x3b] + m + seq![0x43u8]) =~= seq![0x1bu8, 0x5b, 0x31, 0x3b] + m + seq![0x43u8]);
    assert(seq![0x1bu8, 0x5b] + (seq![0x31u8, 0x3b] + m + seq![0x44u8]) =~= seq![0x1bu8, 0x5b, 0x31, 0x3b] + m + seq![0x44u8]);
    assert(seq![0x1bu8, 0x5b] + (seq![0x31u8, 0x3b] + m + seq![0x48u8]) =~= seq![0x1bu8, 0x5b, 0x31, 0x3b] + m + seq![0x48u8]);
    assert(seq![0x1bu8, 0x5b] + (seq![0x31u8, 0x3b] + m + seq![0x46u8]) =~= seq![0x1bu8, 0x5b, 0x31, 0x3b] + m + seq![0x46u8]);
    assert(seq![0x1bu8, 0x5b] + (seq![0x31u8, 0x3b] + m + seq![0x50u8]) =~= seq![0x1bu8, 0x5b, 0x31, 0x3b] + m + seq![0x50u8]);
    assert(seq![0x1bu8, 0x5b] + (seq![0x31u8, 0x3b] + m + seq![0x51u8]) =~= seq![0x1bu8, 0x5b, 0x31, 0x3b] + m + seq![0x51u8]);
    assert(seq![0x1bu8, 0x5b] + (seq![0x31u8, 0x3b] + m + seq![0x52u8]) =~= seq![0x1bu8, 0x5b, 0x31, 0x3b] + m + seq![0x52u8]);
    assert(seq![0x1bu8, 0x5b] + (seq![0x31u8, 0x3b] + m + seq![0x53u8]) =~= seq![0x1bu8, 0x5b, 0x31, 0x3b] + m + seq![0x53u8]);
    assert(decimal(2) =~= seq![0x32u8]);
    assert(seq![0x1bu8, 0x5b] + (seq![0x32u8] + seq![0x3bu8] + m + seq![0x7eu8]) =~= seq![0x1bu8, 0x5b, 0x32, 0x3b] + m + seq![0x7eu8]);
    assert(decimal(3) =~= seq![0x33u8]);
    assert(seq![0x1bu8, 0x5b] + (seq![0x33u8] + seq![0x3bu8] + m + seq![0x7eu8]) =~= seq![0x1bu8, 0x5b, 0x33, 0x3b] + m + seq![0x7eu8]);
    assert(decimal(5) =~= seq![0x35u8]);
    assert(seq![0x1bu8, 0x5b] + (seq![0x35u8] + seq![0x3bu8] + m + seq![0x7eu8]) =~= seq![0x1bu8, 0x5b, 0x35, 0x3b] + m + seq![0x7eu8]);
    assert(decimal(6) =~= seq![0x36u8]);
    assert(seq![0x1bu8, 0x5b] + (seq![0x36u8] + seq![0x3bu8] + m + seq![0x7eu8]) =~= seq![0x1bu8, 0x5b, 0x36, 0x3b] + m + seq![0x7eu8]);
    assert(decimal(15) =~= seq![0x31u8, 0x35]);
    assert(seq![0x1bu8, 0x5b] + (seq![0x31u8, 0x35] + seq![0x3bu8] + m + seq![0x7eu8]) =~= seq![0x1bu8, 0x5b, 0x31, 0x35, 0x3b] + m + seq![0x7eu8]);
    assert(decimal(17) =~= seq![0x31u8, 0x37]);
    assert(seq![0x1bu8, 0x5b] + (seq![0x31u8, 0x37] + seq![0x3bu8] + m + seq![0x7eu8]) =~= seq![0x1bu8, 0x5b, 0x31, 0x37, 0x3b] + m + seq![0x7eu8]);
    assert(decimal(18) =~= seq![0x31u8, 0x38]);
    assert(seq![0x1bu8, 0x5b] + (seq![0x31u8, 0x38] + seq![0x3bu8] + m + seq![0x7eu8]) =~= seq![0x1bu8, 0x5b, 0x31, 0x38, 0x3b] + m + seq![0x7eu8]);
    assert(decimal(19) =~= seq![0x31u8, 0x39]);
    assert(seq![0x1bu8, 0x5b] + (seq![0x31u8, 0x39] + seq![0x3bu8] + m + seq![0x7eu8]) =~= seq![0x1bu8, 0x5b, 0x31, 0x39, 0x3b] + m + seq![0x7eu8]);
    assert(decimal(20) =~= seq![0x32u8, 0x30]);
    assert(seq![0x1bu8, 0x5b] + (seq![0x32u8, 0x30] + seq![0x3bu8] + m + seq![0x7eu8]) =~= seq![0x1bu8, 0x5b, 0x32, 0x30, 0x3b] + m + seq![0x7eu8]);
    assert(decimal(21) =~= seq![0x32u8, 0x31]);
    assert(seq![0x1bu8, 0x5b] + (seq![0x32u8, 0x31] + seq![0x3bu8] + m + seq![0x7eu8]) =~= seq![0x1bu8, 0x5b, 0x32, 0x31, 0x3b] + m + seq![0x7eu8]);
    assert(decimal(23) =~= seq![0x32u8, 0x33]);
    assert(seq![0x1bu8, 0x5b] + (seq![0x32u8, 0x33] + seq![0x3bu8] + m + seq![0x7eu8]) =~= seq![0x1bu8, 0x5b, 0x32, 0x33, 0x3b] + m + seq![0x7eu8]);
    assert(decimal(24) =~= seq![0x32u8, 0x34]);
    assert(seq![0x1bu8, 0x5b] + (seq![0x32u8, 0x34] + seq![0x3bu8] + m + seq![0x7eu8]) =~= seq![0x1bu8, 0x5b, 0x32, 0x34, 0x3b] + m + seq![0x7eu8]);
}

/// Keys with a control code of their own are sent as that code: Enter as a carriage return
/// (or as `ESC O M` from an application keypad), Backspace as DEL or with Ctrl as BS, Tab as
/// a tab or with Shift as `ESC [ Z`, Escape, and Space, with Ctrl as NUL. Alt puts an escape
/// before it.
pub proof fn control_keys_are_sent_as(
    location: Location,
    mods: Modifiers,
    text: Option<Seq<char>>,
    app_cursor: bool,
    enh: KeyboardEnhancements,
)
    requires
        asks_nothing(enh),
    ensures
        ({
            let alt = if mods.alt {
                seq![0x1bu8]
            } else {
                Seq::<u8>::empty()
            };
            let sent = |named: Named|
                key_bytes(Key::Named(named), location, mods, text, app_cursor, enh);
            &&& sent(Named::Enter) == Some(
                alt + if enh.application_keypad && location == Location::Numpad {
                    seq![0x1bu8, 0x4f, 0x4d]
                } else {
                    seq![0x0du8]
                },
            )
            &&& sent(Named::Backspace) == Some(
                alt + if mods.control {
                    seq![0x08u8]
                } else {
                    seq![0x7fu8]
                },
            )
            &&& sent(Named::Tab) == Some(
                alt + if mods.shift {
                    seq![0x1bu8, 0x5b, 0x5a]
                } else {
                    seq![0x09u8]
                },
            )
            &&& sent(Named::Escape) == Some(alt + seq![0x1bu8])
            &&& sent(Named::Space) == Some(
                alt + if mods.control {
                    seq![0x00u8]
                } else {
                    seq![0x20u8]
                },
            )
            &&& sent(Named::Other) is None
        }),
{
    let sent = |named: Named|
        key_bytes(Key::Named(named), location, mods, text, app_cursor, enh);
    assert(seq![0x1bu8, 0x5b] + seq![0x5au8] =~= seq![0x1bu8, 0x5b, 0x5a]);
    assert forall|s: Seq<u8>| #[trigger] (Seq::<u8>::empty() + s) == s by {
        assert(Seq::<u8>::empty() + s =~= s);
    }
}

/// A letter with Ctrl is its place in the alphabet, in either case; `@` and the space are
/// NUL, and `[ \\ ] ^ _` are the five codes from ESC on. Alt puts an escape before it.
pub proof fn control_characters_are_sent_as(
    s: String,
    k: u8,
    location: Location,
    mods: Modifiers,
    text: Option<Seq<char>>,
    app_cursor: bool,
    enh: KeyboardEnhancements,
)
    requires
        asks_nothing(enh),
        mods.control,
        s@.len() > 0,
        1 <= k <= 26,
    ensures
        ({
            let sent = key_bytes(Key::Character(s), location, mods, text, app_cursor, enh);
            let coded = |code: u8|
                sent == Some(
                    if mods.alt {
                        seq![0x1bu8, code]
                    } else {
                        seq![code]
                    },
                );
            &&& s@[0] == (96 + k) as char ==> coded(k)
            &&& s@[0] == (64 + k) as char ==> coded(k)
            &&& s@[0] == '@' || s@[0] == ' ' ==> coded(0)
            &&& s@[0] == '[' ==> coded(0x1b)
            &&& s@[0] == '\\' ==> coded(0x1c)
            &&& s@[0] == ']' ==> coded(0x1d)
            &&& s@[0] == '^' ==> coded(0x1e)
            &&& s@[0] == '_' ==> coded(0x1f)
            &&& '0' <= s@[0] <= '9' ==> (match text {
                Some(typed) => sent == Some(encode_utf8(typed)),
                None => sent is None,
            })
        }),
{
    lemma_behind_escape(k);
    lemma_behind_escape(0);
    lemma_behind_escape(0x1b);
    lemma_behind_escape(0x1c);
    lemma_behind_escape(0x1d);
    lemma_behind_escape(0x1e);
    lemma_behind_escape(0x1f);
}

/// What is typed is sent as its text, and with Alt behind an escape.
pub proof fn typed_text_is_sent(
    s: String,
    location: Location,
    mods: Modifiers,
    text: Seq<char>,
    app_cursor: bool,
    enh: KeyboardEnhancements,
)
    requires
        asks_nothing(enh),
        !mods.control,
        s@.len() > 0,
    ensures
        !mods.alt ==> key_bytes(Key::Character(s), location, mods, Some(text), app_cursor, enh)
            == Some(encode_utf8(text)),
        mods.alt ==> key_bytes(Key::Character(s), location, mods, Some(text), app_cursor, enh)
            == Some(seq![0x1bu8] + encode_utf8(text)),
        key_bytes(Key::Unidentified, location, mods, Some(text), app_cursor, enh) == Some(
            encode_utf8(text),
        ),
{
}

/// Where the Kitty protocol reports all keys, a key that gives text is `ESC [`, its number,
/// the modifiers and `u`. The number is that of the character without Shift, or the control
/// code of the key.
pub proof fn reports_name_the_key_and_its_modifiers(
    s: String,
    location: Location,
    mods: Modifiers,
    text: Option<Seq<char>>,
    app_cursor: bool,
    enh: KeyboardEnhancements,
)
    requires
        enh.kitty_flags == 8,
        s@.len() > 0,
    ensures
        ({
            let tail = seq![0x3bu8] + modifier_digits(mods) + seq![0x75u8];
            let sent = |key: Key| key_bytes(key, location, mods, text, app_cursor, enh);
            &&& sent(Key::Character(s)) == Some(
                seq![0x1bu8, 0x5b] + decimal(lower_char(s@[0]) as nat) + tail,
            )
            &&& sent(Key::Named(Named::Escape)) == Some(seq![0x1bu8, 0x5b, 0x32, 0x37] + tail)
            &&& sent(Key::Named(Named::Enter)) == Some(seq![0x1bu8, 0x5b, 0x31, 0x33] + tail)
            &&& sent(Key::Named(Named::Tab)) == Some(seq![0x1bu8, 0x5b, 0x39] + tail)
            &&& sent(Key::Named(Named::Backspace)) == Some(
                seq![0x1bu8, 0x5b, 0x31, 0x32, 0x37] + tail,
            )
            &&& sent(Key::Named(Named::Space)) == Some(seq![0x1bu8, 0x5b, 0x33, 0x32] + tail)
        }),
{
    assert((8u16 / 8) % 2 == 1);
    reveal_with_fuel(decimal, 3);
    lemma_report(lower_char(s@[0]) as u32, mods);
    lemma_report(27, mods);
    lemma_report(13, mods);
    lemma_report(9, mods);
    lemma_report(127, mods);
    lemma_report(32, mods);
    assert(seq![0x1bu8, 0x5b] + decimal(27) =~= seq![0x1bu8, 0x5b, 0x32, 0x37]);
    assert(seq![0x1bu8, 0x5b] + decimal(13) =~= seq![0x1bu8, 0x5b, 0x31, 0x33]);
    assert(seq![0x1bu8, 0x5b] + decimal(9) =~= seq![0x1bu8, 0x5b, 0x39]);
    assert(seq![0x1bu8, 0x5b] + decimal(127) =~= seq![0x1bu8, 0x5b, 0x31, 0x32, 0x37]);
    assert(seq![0x1bu8, 0x5b] + decimal(32) =~= seq![0x1bu8, 0x5b, 0x33, 0x32]);
}

/// Where xterm's reports of other keys are on, a key that gives text is reported at level 1
/// with Alt or the logo key, at level 2 with any modifier and above that always: as
/// `ESC [ 27 ; modifiers ; number ~`, or as `ESC [ number ; modifiers u`. A key that is not
/// reported is sent as if the reports were off.
pub proof fn other_keys_are_reported_as(
    key: Key,
    location: Location,
    mods: Modifiers,
    text: Option<Seq<char>>,
    app_cursor: bool,
    enh: KeyboardEnhancements,
)
    requires
        enh.kitty_flags == 0,
        !enh.report_all_keys,
        key matches Key::Character(s) ==> s@.len() > 0,
    ensures
        ({
            let sent = key_bytes(key, location, mods, text, app_cursor, enh);
            let off = KeyboardEnhancements { modify_other_keys: 0, ..enh };
            let any = mods.shift || mods.alt || mods.control || mods.logo;
            let wanted = (enh.modify_other_keys == 1 && (mods.alt || mods.logo)) || (
            enh.modify_other_keys == 2 && any) || enh.modify_other_keys > 2;
            let number = match key {
                Key::Named(Named::Escape) => Some(0x1bnat),
                Key::Named(Named::Enter) => Some(0x0dnat),
                Key::Named(Named::Tab) => Some(0x09nat),
                Key::Named(Named::Backspace) => Some(0x7fnat),
                Key::Named(Named::Space) => Some(0x20nat),
                Key::Character(s) => Some(
                    if mods.shift {
                        upper_char(s@[0]) as nat
                    } else {
                        lower_char(s@[0]) as nat
                    },
                ),
                _ => None,
            };
            let typed = mods.shift && text is Some;
            &&& !wanted || number is None ==> sent == key_bytes(
                key,
                location,
                mods,
                text,
                app_cursor,
                off,
            )
            &&& wanted && number is Some && !typed ==> sent == Some(
                if enh.format_other_keys == 1 {
                    seq![0x1bu8, 0x5b] + decimal(number->0) + seq![0x3bu8] + modifier_digits(mods)
                        + seq![0x75u8]
                } else {
                    seq![0x1bu8, 0x5b, 0x32, 0x37, 0x3b] + modifier_digits(mods) + seq![0x3bu8]
                        + decimal(number->0) + seq![0x7eu8]
                },
            )
        }),
{
    lemma_modifier_digits(mods);
    let m = modifier_digits(mods);
    if typed_code(key, mods, text) is Some {
        let code = typed_code(key, mods, text)->0;
        assert(code_report(code, mods) =~= seq![0x1bu8, 0x5b] + decimal(code as nat) + seq![0x3bu8]
            + m + seq![0x75u8]);
        assert(other_key_report(code, mods) =~= seq![0x1bu8, 0x5b, 0x32, 0x37, 0x3b] + m + seq![
            0x3bu8,
        ] + decimal(code as nat) + seq![0x7eu8]);
    }
}

/// Where the Kitty protocol only tells escape codes apart, Escape and characters with Ctrl,
/// Alt or the logo key are reported as where it reports all keys; what is typed, and Enter,
/// Tab and Backspace, are sent as if it were off.
pub proof fn told_apart_are_only_what_could_be_mistaken(
    key: Key,
    location: Location,
    mods: Modifiers,
    text: Option<Seq<char>>,
    app_cursor: bool,
    enh: KeyboardEnhancements,
)
    requires
        enh.kitty_flags == 1,
        !enh.report_all_keys,
        enh.modify_other_keys == 0,
    ensures
        ({
            let sent = key_bytes(key, location, mods, text, app_cursor, enh);
            let all = key_bytes(
                key,
                location,
                mods,
                text,
                app_cursor,
                KeyboardEnhancements { kitty_flags: 8, ..enh },
            );
            let off = key_bytes(
                key,
                location,
                mods,
                text,
                app_cursor,
                KeyboardEnhancements { kitty_flags: 0, ..enh },
            );
            let combined = mods.control || mods.alt || mods.logo;
            &&& key == Key::Named(Named::Escape) ==> sent == all
            &&& key is Character && combined ==> sent == all
            &&& key == Key::Named(Named::Space) && combined ==> sent == all
            &&& key is Character && !combined ==> sent == off
            &&& key == Key::Named(Named::Enter) || key == Key::Named(Named::Tab) || key
                == Key::Named(Named::Backspace) ==> sent == off
            &&& base_code(key) is None ==> sent == off && all == off
        }),
{
    assert((8u16 / 8) % 2 == 1 && 8u16 % 2 == 0);
    assert(1u16 % 2 == 1 && (1u16 / 8) % 2 == 0);
}

/// The names of keys in shortcuts, and the modifiers before them: Ctrl, Shift, Alt and the
/// logo key, in that order.
#[verifier::spinoff_prover]
pub proof fn shortcuts_are_written_as(key: Key, mods: Modifiers, s: String)
    requires
        key matches Key::Character(c) ==> c@.len() > 0,
    ensures
        binding_of(Key::Named(Named::Tab), Modifiers::none()) == Some("tab"@),
        binding_of(Key::Named(Named::Enter), Modifiers::none()) == Some("enter"@),
        binding_of(Key::Named(Named::Escape), Modifiers::none()) == Some("escape"@),
        binding_of(Key::Named(Named::Backspace), Modifiers::none()) == Some("backspace"@),
        binding_of(Key::Named(Named::Delete), Modifiers::none()) == Some("delete"@),
        binding_of(Key::Named(Named::Insert), Modifiers::none()) == Some("insert"@),
        binding_of(Key::Named(Named::Home), Modifiers::none()) == Some("home"@),
        binding_of(Key::Named(Named::End), Modifiers::none()) == Some("end"@),
        binding_of(Key::Named(Named::PageUp), Modifiers::none()) == Some("pageup"@),
        binding_of(Key::Named(Named::PageDown), Modifiers::none()) == Some("pagedown"@),
        binding_of(Key::Named(Named::ArrowUp), Modifiers::none()) == Some("up"@),
        binding_of(Key::Named(Named::ArrowDown), Modifiers::none()) == Some("down"@),
        binding_of(Key::Named(Named::ArrowLeft), Modifiers::none()) == Some("left"@),
        binding_of(Key::Named(Named::ArrowRight), Modifiers::none()) == Some("right"@),
        binding_of(Key::Named(Named::Space), Modifiers::none()) == Some("space"@),
        binding_of(Key::Named(Named::F1), Modifiers::none()) == Some("f1"@),
        binding_of(Key::Named(Named::F2), Modifiers::none()) == Some("f2"@),
        binding_of(Key::Named(Named::F3), Modifiers::none()) == Some("f3"@),
        binding_of(Key::Named(Named::F4), Modifiers::none()) == Some("f4"@),
        binding_of(Key::Named(Named::F5), Modifiers::none()) == Some("f5"@),
        binding_of(Key::Named(Named::F6), Modifiers::none()) == Some("f6"@),
        binding_of(Key::Named(Named::F7), Modifiers::none()) == Some("f7"@),
        binding_of(Key::Named(Named::F8), Modifiers::none()) == Some("f8"@),
        binding_of(Key::Named(Named::F9), Modifiers::none()) == Some("f9"@),
        binding_of(Key::Named(Named::F10), Modifiers::none()) == Some("f10"@),
        binding_of(Key::Named(Named::F11), Modifiers::none()) == Some("f11"@),
        binding_of(Key::Named(Named::F12), Modifiers::none()) == Some("f12"@),
        s@.len() > 0 && 'a' <= s@[0] <= 'z' ==> binding_of(
            Key::Character(s),
            Modifiers { control: true, ..Modifiers::none() },
        ) == Some("ctrl+"@ + seq![s@[0]]),
        s@.len() > 0 && 'A' <= s@[0] <= 'Z' ==> binding_of(
            Key::Character(s),
            Modifiers { control: true, ..Modifiers::none() },
        ) == Some("ctrl+"@ + seq![(s@[0] as u32 + 32) as char]),
        s@.len() > 0 && '0' <= s@[0] <= '9' ==> binding_of(
            Key::Character(s),
            Modifiers { alt: true, ..Modifiers::none() },
        ) == Some("alt+"@ + seq![s@[0]]),
        s@.len() > 0 && s@[0] == '\\' ==> binding_of(
            Key::Character(s),
            Modifiers { logo: true, ..Modifiers::none() },
        ) == Some("super+"@ + "backslash"@),
        ({
            let with = |m: Modifiers| binding_of(key, m);
            let rest = Modifiers { control: false, ..mods };
            &&& with(rest) is Some && mods.control ==> with(mods) == Some("ctrl+"@ + with(rest)->0)
            &&& with(Modifiers { shift: false, ..rest }) is Some && rest.shift ==> with(rest)
                == Some("shift+"@ + with(Modifiers { shift: false, ..rest })->0)
        }),
        ({
            let with = |m: Modifiers| binding_of(key, m);
            let none = Modifiers::none();
            let logo = Modifiers { logo: true, ..none };
            let alt = Modifiers { alt: true, ..none };
            &&& with(logo) is Some ==> with(Modifiers { alt: true, ..logo }) == Some(
                "alt+"@ + with(logo)->0,
            )
            &&& with(none) is Some ==> with(alt) == Some("alt+"@ + with(none)->0) && with(logo)
                == Some("super+"@ + with(none)->0)
        }),
{
    let e = Seq::<char>::empty();
    assert forall|x: Seq<char>| #[trigger] (e + x) == x by {
        assert(e + x =~= x);
    }
    assert forall|x: Seq<char>| #[trigger] (x + e) == x by {
        assert(x + e =~= x);
    }
    assert forall|x: Seq<char>, y: Seq<char>, z: Seq<char>| #[trigger] ((x + y) + z) == x + (y + z) by {
        assert((x + y) + z =~= x + (y + z));
    }
}

/// The shortcuts of the window itself: Ctrl and Shift with `p`, `/` or `?`, and `l`, in
/// either case, and F12.
pub proof fn shortcuts_of_the_window(s: String, mods: Modifiers)
    requires
        s@.len() > 0,
    ensures
        ({
            let found = chrome_shortcut_of(Key::Character(s), mods);
            let both = mods.control && mods.shift;
            &&& found == Some(ChromeShortcut::CommandPalette) <==> both && (s@[0] == 'p' || s@[0]
                == 'P')
            &&& found == Some(ChromeShortcut::Help) <==> both && (s@[0] == '/' || s@[0] == '?')
            &&& found == Some(ChromeShortcut::TabSwitcher) <==> both && (s@[0] == 'l' || s@[0]
                == 'L')
            &&& found != Some(ChromeShortcut::Debug)
        }),
        chrome_shortcut_of(Key::Named(Named::F12), mods) == Some(ChromeShortcut::Debug),
{
}

/// A key with Shift that typed something is reported by xterm's rules with the character that
/// was typed.
pub proof fn a_shifted_key_is_reported_as_typed(
    s: String,
    location: Location,
    mods: Modifiers,
    text: Seq<char>,
    app_cursor: bool,
    enh: KeyboardEnhancements,
)
    requires
        s@.len() > 0,
        mods.shift,
        text.len() > 0,
        32 <= text[0] as u32 && text[0] as u32 != 127 && !(127 <= text[0] as u32 <= 159),
        enh.kitty_flags == 0,
        !enh.report_all_keys,
        enh.modify_other_keys == 2,
        enh.format_other_keys == 0,
    ensures
        key_bytes(Key::Character(s), location, mods, Some(text), app_cursor, enh) == Some(
            seq![0x1bu8, 0x5b, 0x32, 0x37, 0x3b] + modifier_digits(mods) + seq![0x3bu8] + decimal(
                (text[0] as u32) as nat,
            ) + seq![0x7eu8],
        ),
{
    lemma_modifier_digits(mods);
    let m = modifier_digits(mods);
    let code = text[0] as u32;
    assert(first_visible(text) == Some(text[0]));
    assert(typed_code(Key::Character(s), mods, Some(text)) == Some(code));
    assert(other_key_report(code, mods) =~= seq![0x1bu8, 0x5b, 0x32, 0x37, 0x3b] + m + seq![0x3bu8]
        + decimal(code as nat) + seq![0x7eu8]);
}

} // verus!
