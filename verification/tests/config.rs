use jterm3::config::{
    font_answer, listed_fonts, matched_font, math_font_candidates, nerd_font_candidates, Config,
    FontAnswer, PathError, TabPosition,
};
use jterm3::terminal::MAX_TERMINAL_COLS;

#[test]
fn normalization_bounds_untrusted_numeric_values() {
    let config = Config { cols: usize::MAX, rows: 0, ..Config::default() };

    let normalized = config.normalized();

    assert_eq!(normalized.cols, MAX_TERMINAL_COLS);
    assert_eq!(normalized.rows, 1);
}

#[test]
fn empty_optional_strings_are_normalized() {
    let config = Config {
        theme: "   ".to_string(),
        shell: Some("  ".to_string()),
        ..Config::default()
    };

    let normalized = config.normalized();

    assert_eq!(normalized.theme, Config::default().theme);
    assert_eq!(normalized.shell, None);
}

#[test]
fn standard_settings() {
    let config = Config::default();
    assert_eq!(config.theme, "dark");
    assert_eq!(config.tab_position, TabPosition::Top);
    assert_eq!((config.cols, config.rows), (100, 30));
}

#[test]
fn scrolling_settings_are_bounded() {
    assert_eq!(Config::clamp_scrollback_lines(0), 100);
    assert_eq!(Config::clamp_scrollback_lines(5_000), 5_000);
    assert_eq!(Config::clamp_scrollback_lines(1_000_000), 100_000);
    assert_eq!(Config::clamp_scroll_speed(0), 1);
    assert_eq!(Config::clamp_scroll_speed(7), 7);
    assert_eq!(Config::clamp_scroll_speed(99), 10);
}

#[test]
fn normalizing_twice_is_normalizing_once() {
    let messy = || Config {
        theme: " solarized ".to_string(),
        shell: Some(" /bin/zsh ".to_string()),
        session_history_file: Some("".to_string()),
        scrollback_lines: 7,
        ..Config::default()
    };
    let once = messy().normalized();
    let twice = messy().normalized().normalized();
    assert_eq!(once.theme, twice.theme);
    assert_eq!(once.shell, twice.shell);
    assert_eq!(once.session_history_file.as_deref(), Some(""));
    assert_eq!(twice.session_history_file.as_deref(), Some(""));
    assert_eq!((once.scrollback_lines, twice.scrollback_lines), (100, 100));
}

#[test]
fn settings_live_below_the_config_directory() {
    assert_eq!(
        Config::config_path(Some("/home/u/.config")).unwrap(),
        "/home/u/.config/jterm3/config.toml"
    );
    assert!(matches!(Config::config_path(None), Err(PathError::NoConfigDirectory)));
}

#[test]
fn session_history_may_be_put_elsewhere() {
    let config = Config { session_history_file: Some("~/sessions.json".to_string()), ..Config::default() };
    assert_eq!(
        config.session_history_path(Some("/home/u/.config"), Some("/home/u")).unwrap(),
        "/home/u/sessions.json"
    );
    let config = Config { session_history_file: Some("/var/sessions.json".to_string()), ..Config::default() };
    assert_eq!(
        config.session_history_path(Some("/home/u/.config"), Some("/home/u")).unwrap(),
        "/var/sessions.json"
    );
    assert!(config.session_history_path(None, Some("/home/u")).is_err());
}

#[test]
fn font_families_are_listed_once_and_in_order() {
    let listing = "DejaVu Sans Mono:style=Book\nAnka,Anka Coder\n\nDejaVu Sans Mono\n";
    let families = listed_fonts(listing);
    assert!(families.windows(2).all(|pair| pair[0] < pair[1]));
    assert!(families.contains(&"Anka".to_string()));
}

#[test]
fn a_font_answer_names_the_font_or_another() {
    assert!(matches!(
        font_answer("Noto Sans Math", "noto sans math,Noto Sans Math Regular\n"),
        FontAnswer::Found(family) if family == "noto sans math"
    ));
    assert!(matches!(font_answer("Noto Sans Math", "DejaVu Sans\n"), FontAnswer::Another));
    assert!(matches!(font_answer("Noto Sans Math", ""), FontAnswer::Silence));
    assert_eq!(matched_font("\nHack,Hack Regular\n").as_deref(), Some("Hack"));
    assert_eq!(nerd_font_candidates()[0], "SauceCodePro Nerd Font Mono");
    assert_eq!(math_font_candidates().len(), 3);
}
