use jterm3::keyboard::{
    chrome_shortcut, encode_key, key_to_binding_string, ChromeShortcut, Key, KeyboardEnhancements,
    Location, Modifiers, Named,
};

const NONE: Modifiers = Modifiers { shift: false, control: false, alt: false, logo: false };
const CTRL: Modifiers = Modifiers { control: true, ..NONE };
const SHIFT: Modifiers = Modifiers { shift: true, ..NONE };
const ALT: Modifiers = Modifiers { alt: true, ..NONE };
const CTRL_SHIFT: Modifiers = Modifiers { shift: true, ..CTRL };
const CTRL_ALT: Modifiers = Modifiers { alt: true, ..CTRL };
const CTRL_LOGO: Modifiers = Modifiers { logo: true, ..CTRL };
const CTRL_SHIFT_ALT: Modifiers = Modifiers { alt: true, ..CTRL_SHIFT };

#[test]
fn app_chrome_shortcuts_keep_palette_help_switcher_and_f12_contract() {
    let ctrl_shift = CTRL_SHIFT;
    let character = |s: &str| Key::Character(s.into());

    assert_eq!(
        chrome_shortcut(&character("p"), ctrl_shift),
        Some(ChromeShortcut::CommandPalette)
    );
    assert_eq!(
        chrome_shortcut(&character("/"), ctrl_shift),
        Some(ChromeShortcut::Help)
    );
    assert_eq!(
        chrome_shortcut(&character("l"), ctrl_shift),
        Some(ChromeShortcut::TabSwitcher)
    );
    assert_eq!(
        chrome_shortcut(&Key::Named(Named::F12), NONE),
        Some(ChromeShortcut::Debug)
    );

    assert_eq!(chrome_shortcut(&character("g"), ctrl_shift), None);
    assert_eq!(chrome_shortcut(&character("k"), ctrl_shift), None);
    assert_eq!(
        chrome_shortcut(&character("p"), CTRL),
        None
    );
}

#[test]
fn physical_key_events_match_sidebar_focus_and_resize_binding_names() {
    assert_eq!(
        key_to_binding_string(
            &Key::Character("\\".into()),
            CTRL
        )
        .as_deref(),
        Some("ctrl+backslash")
    );

    let focus_mods = CTRL_ALT;
    let resize_mods = CTRL_SHIFT_ALT;
    let cases = [
        (Named::ArrowLeft, focus_mods, "ctrl+alt+left"),
        (Named::ArrowRight, focus_mods, "ctrl+alt+right"),
        (Named::ArrowUp, focus_mods, "ctrl+alt+up"),
        (Named::ArrowDown, focus_mods, "ctrl+alt+down"),
        (Named::ArrowLeft, resize_mods, "ctrl+shift+alt+left"),
        (Named::ArrowRight, resize_mods, "ctrl+shift+alt+right"),
        (Named::ArrowUp, resize_mods, "ctrl+shift+alt+up"),
        (Named::ArrowDown, resize_mods, "ctrl+shift+alt+down"),
    ];
    for (named, modifiers, expected) in cases {
        assert_eq!(
            key_to_binding_string(&Key::Named(named), modifiers).as_deref(),
            Some(expected),
            "{named:?}"
        );
    }
}

#[test]
fn modified_function_keys_keep_their_xterm_modifier_parameters() {
    let cases = [
        (
            Named::ArrowLeft,
            CTRL,
            false,
            b"\x1b[1;5D".as_slice(),
        ),
        (
            Named::F5,
            SHIFT,
            false,
            b"\x1b[15;2~".as_slice(),
        ),
        (
            Named::PageDown,
            ALT,
            false,
            b"\x1b[6;3~".as_slice(),
        ),
        (
            Named::F1,
            CTRL_SHIFT,
            false,
            b"\x1b[1;6P".as_slice(),
        ),
        (
            Named::ArrowUp,
            NONE,
            true,
            b"\x1bOA".as_slice(),
        ),
    ];

    for (named, modifiers, app_cursor, expected) in cases {
        let encoded = encode_key(
            &Key::Named(named),
            Location::Standard,
            modifiers,
            None,
            app_cursor,
            KeyboardEnhancements::default(),
        );
        assert_eq!(encoded.as_deref(), Some(expected), "{named:?}");
    }

    let report_all_arrow = encode_key(
        &Key::Named(Named::ArrowUp),
        Location::Standard,
        NONE,
        None,
        true,
        KeyboardEnhancements {
            report_all_keys: true,
            ..Default::default()
        },
    );
    assert_eq!(report_all_arrow.as_deref(), Some(&b"\x1b[1;1A"[..]));
}

#[test]
fn legacy_control_keys_preserve_ctrl_and_alt_semantics() {
    let ctrl_backspace = encode_key(
        &Key::Named(Named::Backspace),
        Location::Standard,
        CTRL,
        None,
        false,
        KeyboardEnhancements::default(),
    );
    assert_eq!(ctrl_backspace.as_deref(), Some(&b"\x08"[..]));

    let ctrl_alt_backspace = encode_key(
        &Key::Named(Named::Backspace),
        Location::Standard,
        CTRL_ALT,
        None,
        false,
        KeyboardEnhancements::default(),
    );
    assert_eq!(ctrl_alt_backspace.as_deref(), Some(&b"\x1b\x08"[..]));

    let ctrl_space = encode_key(
        &Key::Named(Named::Space),
        Location::Standard,
        CTRL,
        Some(" "),
        false,
        KeyboardEnhancements::default(),
    );
    assert_eq!(ctrl_space.as_deref(), Some(&b"\0"[..]));
}

#[test]
fn kitty_report_all_and_disambiguation_do_not_fall_back_to_plain_text() {
    let report_all = KeyboardEnhancements {
        kitty_flags: 0b1000,
        report_all_keys: true,
        ..Default::default()
    };
    let letter = encode_key(
        &Key::Character("a".into()),
        Location::Standard,
        NONE,
        Some("a"),
        false,
        report_all,
    );
    assert_eq!(letter.as_deref(), Some(&b"\x1b[97;1u"[..]));

    let enter = encode_key(
        &Key::Named(Named::Enter),
        Location::Standard,
        NONE,
        None,
        false,
        report_all,
    );
    assert_eq!(enter.as_deref(), Some(&b"\x1b[13;1u"[..]));

    let disambiguate = KeyboardEnhancements {
        kitty_flags: 0b1,
        ..Default::default()
    };
    let escape = encode_key(
        &Key::Named(Named::Escape),
        Location::Standard,
        NONE,
        None,
        false,
        disambiguate,
    );
    assert_eq!(escape.as_deref(), Some(&b"\x1b[27;1u"[..]));

    let legacy_enter = encode_key(
        &Key::Named(Named::Enter),
        Location::Standard,
        NONE,
        None,
        false,
        disambiguate,
    );
    assert_eq!(legacy_enter.as_deref(), Some(&b"\r"[..]));

    let ctrl_super = encode_key(
        &Key::Character("a".into()),
        Location::Standard,
        CTRL_LOGO,
        None,
        false,
        disambiguate,
    );
    assert_eq!(ctrl_super.as_deref(), Some(&b"\x1b[97;13u"[..]));
}

#[test]
fn modify_other_keys_handles_shifted_text_and_level_three() {
    let shifted_symbol = encode_key(
        &Key::Character("1".into()),
        Location::Standard,
        SHIFT,
        Some("!"),
        false,
        KeyboardEnhancements {
            modify_other_keys: 2,
            ..Default::default()
        },
    );
    assert_eq!(shifted_symbol.as_deref(), Some(&b"\x1b[27;2;33~"[..]));

    let shifted_tab = encode_key(
        &Key::Named(Named::Tab),
        Location::Standard,
        SHIFT,
        None,
        false,
        KeyboardEnhancements {
            modify_other_keys: 2,
            ..Default::default()
        },
    );
    assert_eq!(shifted_tab.as_deref(), Some(&b"\x1b[27;2;9~"[..]));

    let unmodified_level_three = encode_key(
        &Key::Character("x".into()),
        Location::Standard,
        NONE,
        Some("x"),
        false,
        KeyboardEnhancements {
            modify_other_keys: 3,
            ..Default::default()
        },
    );
    assert_eq!(
        unmodified_level_three.as_deref(),
        Some(&b"\x1b[27;1;120~"[..])
    );
}

#[test]
fn enter_honors_key_location_in_application_keypad_mode() {
    let plain = encode_key(
        &Key::Named(Named::Enter),
        Location::Standard,
        Modifiers::default(),
        None,
        false,
        KeyboardEnhancements::default(),
    );
    assert_eq!(plain.as_deref(), Some(&b"\r"[..]));

    let standard_in_keypad_mode = encode_key(
        &Key::Named(Named::Enter),
        Location::Standard,
        Modifiers::default(),
        None,
        false,
        KeyboardEnhancements {
            application_keypad: true,
            ..Default::default()
        },
    );
    assert_eq!(standard_in_keypad_mode.as_deref(), Some(&b"\r"[..]));

    let numpad_in_keypad_mode = encode_key(
        &Key::Named(Named::Enter),
        Location::Numpad,
        Modifiers::default(),
        None,
        false,
        KeyboardEnhancements {
            application_keypad: true,
            ..Default::default()
        },
    );
    assert_eq!(numpad_in_keypad_mode.as_deref(), Some(&b"\x1bOM"[..]));
}
