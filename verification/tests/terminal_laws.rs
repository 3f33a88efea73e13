use jterm3::char_width::cached_char_width;
use jterm3::terminal::{
    clamp_terminal_dimensions, Color, CursorShape, TerminalState, UnderlineStyle,
    MAX_TERMINAL_COLS, MAX_TERMINAL_ROWS,
};

fn line(terminal: &TerminalState, row: usize) -> String {
    let text: String = terminal.grid.row(row).iter().map(|cell| cell.character).collect();
    text.trim_end().to_string()
}

fn screen(terminal: &TerminalState) -> Vec<String> {
    (0..terminal.grid.rows()).map(|row| line(terminal, row)).collect()
}

fn output(terminal: &mut TerminalState) -> String {
    String::from_utf8(terminal.get_output()).unwrap()
}

#[test]
fn sizes_are_brought_into_range() {
    assert_eq!(clamp_terminal_dimensions(0, 0), (1, 1));
    assert_eq!(clamp_terminal_dimensions(80, 24), (80, 24));
    assert_eq!(
        clamp_terminal_dimensions(usize::MAX, usize::MAX),
        (MAX_TERMINAL_COLS, MAX_TERMINAL_ROWS)
    );
    let terminal = TerminalState::new(0, 0);
    assert_eq!(terminal.get_dimensions(), (1, 1));
}

#[test]
fn input_may_be_cut_anywhere() {
    let input = "ab\x1b[31mcd\x1b[0m\r\n\x1b]2;title\x07x\u{4e2d}y\x1b[2;3HZ".as_bytes();
    let mut whole = TerminalState::new(12, 4);
    whole.process_input(input);
    for cut in 1..input.len() {
        let mut pieces = TerminalState::new(12, 4);
        pieces.process_input(&input[..cut]);
        pieces.process_input(&input[cut..]);
        assert_eq!(screen(&pieces), screen(&whole), "cut at {cut}");
        assert_eq!(pieces.get_cursor_pos(), whole.get_cursor_pos());
        assert_eq!(pieces.window_title, "title");
    }
}

#[test]
fn a_batch_is_read_like_any_input() {
    let mut one = TerminalState::new(10, 3);
    let mut other = TerminalState::new(10, 3);
    one.process_input(b"one\r\ntwo");
    other.process_batch(b"one\r\ntwo");
    assert_eq!(screen(&one), screen(&other));
}

#[test]
fn a_saved_cursor_comes_back_with_its_colours() {
    let mut terminal = TerminalState::new(10, 4);
    terminal.process_input(b"\x1b[2;3H\x1b[32m\x1b7\x1b[4;9H\x1b[31mX\x1b8Y");
    assert_eq!(terminal.grid.get(1, 2).character, 'Y');
    assert_eq!(terminal.grid.get(1, 2).foreground, Color::Green);
    assert_eq!(terminal.get_cursor_pos(), (1, 3));
}

#[test]
fn the_main_screen_comes_back_from_the_other() {
    let mut terminal = TerminalState::new(10, 3);
    terminal.process_input(b"hello\x1b[?1049h");
    assert!(terminal.is_alt_buffer_active());
    terminal.process_input(b"\x1b[2J\x1b[Hother\x1b[?1049l");
    assert!(!terminal.is_alt_buffer_active());
    assert_eq!(line(&terminal, 0), "hello");
    assert_eq!(terminal.get_cursor_pos(), (0, 5));
}

#[test]
fn modes_are_set_and_reset_again() {
    let mut terminal = TerminalState::new(10, 3);
    terminal.process_input(b"\x1b[?25l");
    assert!(!terminal.is_cursor_visible());
    terminal.process_input(b"\x1b[?25h\x1b[?1h");
    assert!(terminal.is_cursor_visible());
    assert!(terminal.is_application_cursor_keys());
    terminal.process_input(b"\x1b[?1l\x1b[?1002h");
    assert!(!terminal.is_application_cursor_keys());
    assert!(terminal.is_mouse_enabled());
    assert!(terminal.is_mouse_motion_enabled());
}

#[test]
fn keyboard_flags_are_pushed_and_popped() {
    let mut terminal = TerminalState::new(10, 3);
    terminal.process_input(b"\x1b[=3u\x1b[>8u\x1b[>16u");
    assert_eq!(terminal.keyboard_enhancement_flags(), 16);
    terminal.process_input(b"\x1b[<2u");
    assert_eq!(terminal.keyboard_enhancement_flags(), 3);
}

#[test]
fn lines_that_leave_the_screen_stay_readable() {
    let mut terminal = TerminalState::new(10, 2);
    terminal.process_input(b"one\r\ntwo\r\nthree\r\nfour");
    assert_eq!(terminal.scrollback_len(), 2);
    let kept: String =
        terminal.scrollback[0].cells().iter().map(|cell| cell.character).collect();
    assert_eq!(kept.trim_end(), "one");
    assert_eq!(screen(&terminal), ["three", "four"]);
}

#[test]
fn the_oldest_lines_go_first() {
    let mut terminal = TerminalState::new(10, 2);
    terminal.set_max_scrollback(2);
    assert_eq!(terminal.max_scrollback(), 2);
    terminal.process_input(b"1\r\n2\r\n3\r\n4\r\n5");
    assert_eq!(terminal.scrollback_len(), 2);
    assert_eq!(terminal.scrollback[0].decompress()[0].character, '2');
    assert_eq!(terminal.scrollback[1].decompress()[0].character, '3');
}

#[test]
fn scrolling_in_a_region_leaves_the_rest() {
    let mut terminal = TerminalState::new(4, 4);
    terminal.process_input(b"A\r\nB\r\nC\r\nD\x1b[2;3r\x1b[3;1H\n");
    assert_eq!(screen(&terminal), ["A", "C", "", "D"]);
    assert_eq!(terminal.scrollback_len(), 0);
    terminal.process_input(b"\x1b[2;1H\x1bM");
    assert_eq!(screen(&terminal), ["A", "", "C", "D"]);
}

#[test]
fn a_resized_screen_keeps_its_lines() {
    let mut terminal = TerminalState::new(10, 3);
    terminal.process_input(b"abc\r\ndef");
    terminal.on_resize(6, 3);
    assert_eq!(screen(&terminal), ["abc", "def", ""]);
    terminal.on_resize(10, 5);
    assert_eq!(&screen(&terminal)[..2], ["abc", "def"]);
    assert_eq!(terminal.get_dimensions(), (10, 5));
}

#[test]
fn a_reset_makes_the_terminal_as_new() {
    let mut terminal = TerminalState::new(10, 3);
    terminal.process_input(b"\x1b[31;1mtext\x1b[?2004h\x1b[2;3r\x1b]2;title\x07\x1bc");
    assert_eq!(screen(&terminal), ["", "", ""]);
    assert_eq!(terminal.get_cursor_pos(), (0, 0));
    assert_eq!(terminal.current_fg, Color::Default);
    assert_eq!((terminal.scroll_region_top, terminal.scroll_region_bottom), (0, 2));
    assert!(!terminal.is_bracketed_paste_enabled());
}

#[test]
fn wide_characters_take_two_columns() {
    assert_eq!(cached_char_width('a'), 1);
    assert_eq!(cached_char_width('\u{4e2d}'), 2);
    assert_eq!(cached_char_width('\u{301}'), 0);
    let mut terminal = TerminalState::new(6, 2);
    terminal.process_input("\u{4e2d}x".as_bytes());
    assert!(terminal.grid.get(0, 0).flags.wide());
    assert!(terminal.grid.get(0, 1).flags.wide_continuation());
    assert_eq!(terminal.grid.get(0, 2).character, 'x');
}

#[test]
fn combining_marks_join_the_character_before() {
    let mut terminal = TerminalState::new(6, 2);
    terminal.process_input("e\u{301}z".as_bytes());
    assert_eq!(terminal.grid.get(0, 0).character, '\u{e9}');
    assert_eq!(terminal.grid.get(0, 1).character, 'z');
}

#[test]
fn long_lines_wrap() {
    let mut terminal = TerminalState::new(4, 3);
    terminal.process_input(b"abcdef");
    assert_eq!(screen(&terminal), ["abcd", "ef", ""]);
    assert_eq!(terminal.get_visible_row_wrapped()[0], true);
    terminal.start_selection((0, 0));
    terminal.update_selection((1, 1));
    assert_eq!(terminal.copy_selection().as_deref(), Some("abcd\nef"));
}

#[test]
fn a_block_selection_takes_columns() {
    let mut terminal = TerminalState::new(6, 3);
    terminal.process_input(b"abcdef\r\nghijkl");
    terminal.start_block_selection((0, 1));
    terminal.update_selection((1, 3));
    assert_eq!(terminal.row_selection_cols(0), Some((1, 3)));
    assert_eq!(terminal.row_selection_cols(2), None);
    assert_eq!(terminal.copy_selection().as_deref(), Some("bcd\nhij"));
}

#[test]
fn edits_of_a_line() {
    let mut terminal = TerminalState::new(6, 2);
    terminal.process_input(b"abcdef\x1b[1;2H\x1b[2P");
    assert_eq!(line(&terminal, 0), "adef");
    terminal.process_input(b"\x1b[1@");
    assert_eq!(line(&terminal, 0), "a def");
    terminal.process_input(b"\x1b[1;1H\x1b[3X");
    assert_eq!(line(&terminal, 0), "   ef");
    terminal.process_input(b"z\x1b[2b");
    assert_eq!(line(&terminal, 0), "zzzef");
}

#[test]
fn cursor_reports_and_shapes() {
    let mut terminal = TerminalState::new(10, 5);
    terminal.process_input(b"\x1b[3;4H\x1b[6n");
    assert_eq!(output(&mut terminal), "\x1b[3;4R");
    assert_eq!(output(&mut terminal), "");
    terminal.process_input(b"\x1b[5n\x1b[2 q");
    assert_eq!(output(&mut terminal), "\x1b[0n");
    assert_eq!(terminal.cursor_shape, CursorShape::Underline);
}

#[test]
fn renditions_of_text() {
    let mut terminal = TerminalState::new(10, 2);
    terminal.process_input(b"\x1b[1;3;4:3;9mA\x1b[0;38;5;200mB\x1b[48;2;1;2;3mC");
    let a = terminal.grid.get(0, 0);
    assert!(a.flags.bold() && a.flags.italic() && a.flags.strikethrough());
    assert_eq!(a.flags.underline(), UnderlineStyle::Curly);
    assert_eq!(terminal.grid.get(0, 1).foreground, Color::Indexed(200));
    assert_eq!(terminal.grid.get(0, 2).background, Color::Rgb(1, 2, 3));
}

#[test]
fn the_clipboard_is_set_and_asked_for() {
    let mut terminal = TerminalState::new(10, 2);
    terminal.process_input(b"\x1b]52;c;aGVsbG8=\x07");
    assert_eq!(terminal.take_osc52_clipboard_set().as_deref(), Some("hello"));
    assert_eq!(terminal.take_osc52_clipboard_set(), None);
    terminal.process_input(b"\x1b]52;c;?\x07");
    assert!(terminal.take_osc52_clipboard_query());
    assert!(!terminal.take_osc52_clipboard_query());
    terminal.respond_osc52_clipboard("hi");
    assert!(output(&mut terminal).contains("aGk="));
}

#[test]
fn focus_is_told_only_when_asked_for() {
    let mut terminal = TerminalState::new(10, 2);
    assert!(!terminal.is_focus_event_mode());
    terminal.process_input(b"\x1b[?1004h");
    terminal.emit_focus_in();
    terminal.emit_focus_out();
    assert_eq!(output(&mut terminal), "\x1b[I\x1b[O");
}

#[test]
fn paste_events_carry_a_password() {
    let mut terminal = TerminalState::new(10, 2);
    let forms = vec!["text/plain".to_string()];
    let event = String::from_utf8(terminal.paste_event_with("pw".to_string(), &forms)).unwrap();
    assert!(event.contains("cHc="), "{event}");
    assert_eq!(terminal.pending_paste_password.as_deref(), Some("pw"));
    let one = terminal.build_paste_event(&forms);
    let other = terminal.build_paste_event(&forms);
    assert_ne!(one, other);
    let password: Vec<char> = terminal.pending_paste_password.unwrap().chars().collect();
    assert_eq!(password.len(), 36);
    for (i, c) in password.iter().enumerate() {
        if [8, 13, 18, 23].contains(&i) {
            assert_eq!(*c, '-');
        } else {
            assert!(c.is_ascii_digit() || ('a'..='f').contains(c));
        }
    }
    assert!(password[14] == '4' && "89ab".contains(password[19]));
}

#[test]
fn synchronized_output_ends_after_a_while() {
    let mut terminal = TerminalState::new(10, 2);
    terminal.process_input(b"\x1b[?2026h");
    assert!(terminal.sync_output_active);
    terminal.check_sync_output_timeout();
    assert!(terminal.sync_output_active);
    terminal.end_sync_output_after(1_000_000_000);
    assert!(terminal.sync_output_active);
    terminal.end_sync_output_after(1_000_000_001);
    assert!(!terminal.sync_output_active);
}

#[test]
fn changed_rows_are_told_once() {
    let mut terminal = TerminalState::new(10, 3);
    let before = terminal.get_grid_version();
    terminal.process_batch(b"\x1b[2;1Hx");
    let mut rows = Vec::new();
    terminal.get_dirty_rows(before, &mut rows);
    assert_eq!(rows, [1]);
    terminal.get_dirty_rows(terminal.get_grid_version(), &mut rows);
    assert!(rows.is_empty());
}

#[test]
fn text_being_composed_is_kept_and_cleared() {
    let mut terminal = TerminalState::new(10, 3);
    terminal.set_preedit("ni".to_string(), Some(0..2));
    assert_eq!(terminal.preedit_text, "ni");
    assert_eq!(terminal.preedit_selection, Some(0..2));
    terminal.clear_preedit();
    assert_eq!(terminal.preedit_text, "");
    assert_eq!(terminal.preedit_selection, None);
}

#[test]
fn broken_utf8_does_not_stop_the_reader() {
    let mut terminal = TerminalState::new(10, 2);
    terminal.process_input(b"a\xff\xfeb\xe4\xb8x");
    assert!(line(&terminal, 0).starts_with('a'));
    assert!(line(&terminal, 0).ends_with('x'));
}

#[test]
fn many_parameters_are_read() {
    let mut terminal = TerminalState::new(10, 2);
    terminal.process_input(b"\x1b[1;2;3;4;5;6;7;8;9;1;1;1;31mX");
    assert_eq!(terminal.grid.get(0, 0).character, 'X');
    assert_eq!(terminal.grid.get(0, 0).foreground, Color::Red);
}

#[test]
fn a_notification_is_taken_once() {
    let mut terminal = TerminalState::new(10, 2);
    terminal.process_input(b"\x1b]777;notify;Title;Body\x07");
    assert_eq!(
        terminal.take_notification(),
        Some(("Title".to_string(), "Body".to_string()))
    );
    assert_eq!(terminal.take_notification(), None);
}

#[test]
fn a_character_wider_than_the_screen_leaves_the_cursor_behind_it() {
    let mut terminal = TerminalState::new(1, 4);
    terminal.process_input("a\r\nb\r\nc\r\nd\x1b[H世".as_bytes());
    assert_eq!(terminal.get_cursor_pos(), (1, 2));
    assert_eq!(terminal.grid.get(1, 0).character, '世');
    terminal.process_input(b"\x1b[6n");
    assert_eq!(terminal.output_buffer, b"\x1b[2;3R");
    terminal.process_input(b"\x1b[1K");
    let column: String = (0..4).map(|row| terminal.grid.get(row, 0).character).collect();
    assert_eq!(column, "a   ");
    terminal.process_input(b"\x08");
    assert_eq!(terminal.get_cursor_pos(), (1, 1));
    terminal.process_input(b"\rx");
    assert_eq!(terminal.grid.get(1, 0).character, 'x');
}

#[test]
fn erasing_up_to_a_cursor_behind_the_line_takes_the_next_cell() {
    let mut terminal = TerminalState::new(3, 3);
    terminal.process_input(b"abc\r\ndef\r\nghi\x1b[1;1Habc\x1b[1K");
    assert_eq!(terminal.get_cursor_pos(), (0, 3));
    let text = |terminal: &TerminalState, row: usize| -> String {
        terminal.grid.row(row).iter().map(|cell| cell.character).collect()
    };
    assert_eq!(text(&terminal, 0), "   ");
    assert_eq!(text(&terminal, 1), " ef");
    assert_eq!(text(&terminal, 2), "ghi");
    terminal.process_input(b"\x1b[2;1Hdef\x1b[1J");
    assert_eq!(text(&terminal, 1), "   ");
    assert_eq!(text(&terminal, 2), " hi");
    terminal.process_input(b"\x1b[3;1Hghi\x1b[1K");
    assert_eq!(text(&terminal, 2), "   ");
}

#[test]
fn the_scrollback_takes_every_limit() {
    let mut terminal = TerminalState::new(4, 1);
    terminal.set_max_scrollback(usize::MAX);
    assert_eq!(terminal.max_scrollback(), usize::MAX);
    terminal.process_input(b"1\r\n2\r\n3\r\n4");
    assert_eq!(terminal.scrollback_len(), 3);
    terminal.set_max_scrollback(0);
    assert_eq!((terminal.max_scrollback(), terminal.scrollback_len()), (1, 1));
}

#[test]
fn a_batch_is_one_version_and_shows_the_same() {
    let input = "one\r\ntwo 世\r\nthree\r\nfour".as_bytes();
    let mut plain = TerminalState::new(6, 2);
    let mut batch = TerminalState::new(6, 2);
    plain.process_input(input);
    let before = batch.get_grid_version();
    batch.process_batch(input);
    assert_eq!(batch.get_grid_version(), before + 1);
    assert_eq!(plain.get_grid_version(), before);
    assert_eq!(plain.grid.to_vec(), batch.grid.to_vec());
    assert_eq!(plain.get_cursor_pos(), batch.get_cursor_pos());
    assert_eq!(plain.scrollback_len(), batch.scrollback_len());
}

#[test]
fn text_before_a_cut_sequence_changes_nothing() {
    let input = "né\x1b[38;2;1;2;3mx\x1b]2;title\x07y\x1b[1;1Hz".as_bytes();
    let mut whole = TerminalState::new(8, 2);
    whole.process_input(input);
    for cut in 0..=input.len() {
        let mut pieces = TerminalState::new(8, 2);
        pieces.process_input(&input[..cut]);
        pieces.process_input(&input[cut..]);
        assert_eq!(pieces.grid.to_vec(), whole.grid.to_vec(), "cut at {}", cut);
        assert_eq!(pieces.get_cursor_pos(), whole.get_cursor_pos());
        assert_eq!(pieces.window_title, whole.window_title);
    }
}

#[test]
fn synchronized_output_has_a_start() {
    let mut terminal = TerminalState::new(4, 2);
    assert!(terminal.sync_output_start.is_none());
    terminal.process_input(b"\x1b[?2026h");
    assert!(terminal.sync_output_active && terminal.sync_output_start.is_some());
    terminal.process_input(b"\x1b[?1049h\x1b[?1049l");
    assert!(terminal.sync_output_start.is_some());
    terminal.process_input(b"\x1b[?2026l");
    assert!(!terminal.sync_output_active && terminal.sync_output_start.is_none());
}

#[test]
fn the_start_of_synchronized_output_stays_until_it_is_switched() {
    let mut terminal = TerminalState::new(4, 2);
    terminal.process_input(b"\x1b[?2026h");
    let start = terminal.sync_output_start;
    terminal.process_input(b"text\x1b[2J\x1b[?25l\x1b[20;26h\x1b[2026h\x1bc");
    terminal.process_batch("世\x1b]2;[?2026l\x07".as_bytes());
    assert_eq!(terminal.sync_output_start, start);
    terminal.process_input(b"\x1b[?20;2026l");
    assert!(terminal.sync_output_start.is_none());
}

#[test]
fn the_cursor_stands_at_most_behind_the_last_column() {
    for cols in 2..6 {
        let mut terminal = TerminalState::new(cols, 2);
        terminal.process_input("ab世c\u{301}世\x1b[?7l世世".as_bytes());
        let (row, col) = terminal.get_cursor_pos();
        assert!(row < 2 && col <= cols, "{row} {col}");
    }
    assert_eq!(cached_char_width('\u{17d8}'), 3);
    for (cols, col) in [(1, 3), (2, 3), (3, 3), (4, 3)] {
        let mut terminal = TerminalState::new(cols, 2);
        terminal.process_input("\u{17d8}".as_bytes());
        assert_eq!(terminal.get_cursor_pos().1, col);
    }
}
