use jterm3::chrome::SearchKey;
use jterm3::search::{search_lines, SearchFollowUp, SearchMatch, SearchState, HISTORY_CAP};
use jterm3::terminal::TerminalState;

fn fed(input: &str) -> TerminalState {
    let mut terminal = TerminalState::new(10, 3);
    terminal.process_input(input.as_bytes());
    terminal
}

fn found(line: usize, col_start: usize, col_end: usize) -> SearchMatch {
    SearchMatch { line, col_start, col_end }
}

#[test]
fn everything_that_a_terminal_holds_is_searched() {
    let terminal = fed("one\r\ntwo\r\nthree\r\nONE\r\nfive");
    let lines = terminal.search_lines();
    assert_eq!(lines.len(), terminal.scrollback_len() + 3);
    assert_eq!(
        search_lines(&lines, "one", false, false),
        Ok(vec![found(0, 0, 3), found(3, 0, 3)])
    );
    assert_eq!(search_lines(&lines, "one", false, true), Ok(vec![found(0, 0, 3)]));
    assert_eq!(search_lines(&lines, "", false, false), Ok(vec![]));
    assert_eq!(
        search_lines(&lines, "e+", true, true),
        Ok(vec![found(0, 2, 3), found(2, 3, 5), found(4, 3, 4)])
    );
    assert_eq!(search_lines(&lines, "e+", false, true), Ok(vec![]));
    assert!(search_lines(&lines, "(", true, false).is_err());
    assert_eq!(search_lines(&lines, "x*", true, false), Ok(vec![]));
}

#[test]
fn wide_characters_are_found_by_their_columns() {
    let terminal = fed("a世界b");
    let lines = terminal.search_lines();
    assert_eq!(search_lines(&lines, "界", false, false), Ok(vec![found(0, 3, 5)]));
    assert_eq!(search_lines(&lines, "b", false, false), Ok(vec![found(0, 5, 6)]));
    assert_eq!(search_lines(&lines, "世界b", false, false), Ok(vec![found(0, 1, 6)]));
}

#[test]
fn the_other_screen_is_not_searched() {
    let terminal = fed("main\x1b[?1049hother");
    let lines = terminal.search_lines();
    assert_eq!(search_lines(&lines, "main", false, false), Ok(vec![]));
    assert_eq!(search_lines(&lines, "other", false, false).map(|all| all.len()), Ok(1));
}

#[test]
fn steps_through_the_matches_go_round() {
    let terminal = fed("a a a");
    let mut search = SearchState::new();
    assert_eq!(search.status_text(), "");
    let typed = search.press(SearchKey::Type, "a\u{7}");
    assert_eq!(typed, SearchFollowUp { find: true, reveal: true });
    assert_eq!((search.query.as_str(), search.status_text().as_str()), ("a", "No matches"));
    search.find(&terminal.search_lines());
    assert_eq!(search.status_text(), "1/3");
    let stepped = search.press(SearchKey::Previous, "");
    assert_eq!(stepped, SearchFollowUp { find: false, reveal: true });
    assert_eq!(search.current_match(), Some(found(0, 4, 5)));
    search.press(SearchKey::Next, "");
    assert_eq!(search.current_match(), Some(found(0, 0, 1)));
    search.press(SearchKey::Next, "");
    assert_eq!(search.status_text(), "2/3");
    assert_eq!(search.press(SearchKey::Swallow, "x"), SearchFollowUp { find: false, reveal: false });
    assert_eq!(search.query, "a");
    search.press(SearchKey::ToggleRegex, "");
    search.press(SearchKey::ToggleCase, "");
    assert!(search.use_regex && search.case_sensitive);
    search.take_found(Err("wrong".to_string()));
    assert_eq!(search.status_text(), "wrong");
    assert_eq!((search.current_match(), search.current_match_index), (None, 0));
}

#[test]
fn a_shorter_query_keeps_the_current_match() {
    let terminal = fed("ab ab ab");
    let mut search = SearchState::new();
    search.set_query("ab".to_string());
    search.find(&terminal.search_lines());
    search.next_match();
    let then = search.press(SearchKey::Shorten, "");
    assert_eq!(then, SearchFollowUp { find: true, reveal: false });
    assert_eq!((search.query.as_str(), search.current_match_index), ("a", 1));
    search.press(SearchKey::Type, "b");
    assert_eq!((search.query.as_str(), search.current_match_index), ("ab", 0));
}

#[test]
fn queries_come_back_from_the_history() {
    let mut search = SearchState::new();
    for query in ["one", "two", "two", "three"] {
        search.set_query(query.to_string());
        search.close();
    }
    search.set_query(String::new());
    search.press(SearchKey::HistoryPrevious, "");
    assert_eq!(search.query, "three");
    search.history_prev();
    assert_eq!(search.query, "two");
    search.history_prev();
    search.history_prev();
    assert_eq!(search.query, "one");
    search.press(SearchKey::HistoryNext, "");
    assert_eq!(search.query, "two");
    search.history_next();
    search.history_next();
    assert_eq!((search.query.as_str(), search.history_nav_index), ("", None));
    for n in 0..HISTORY_CAP + 5 {
        search.set_query(format!("{n}"));
        search.press(SearchKey::Close, "");
    }
    assert_eq!(search.history.len(), HISTORY_CAP);
    assert_eq!(search.history[0], "5");
}

#[test]
fn matches_are_shown_by_the_line_of_the_view() {
    let mut terminal = fed("x\r\n2\r\n3\r\nx\r\n5\r\nx");
    let mut search = SearchState::new();
    search.set_query("x".to_string());
    search.find(&terminal.search_lines());
    let start = terminal.viewport_absolute_start();
    assert_eq!(start, 3);
    assert_eq!(search.visible_matches(start, 3), vec![found(0, 0, 1), found(2, 0, 1)]);
    assert_eq!(search.visible_current(start, 3), None);
    terminal.reveal_buffer_row(0);
    assert_eq!(terminal.scroll_offset, 3);
    assert_eq!(search.visible_current(terminal.viewport_absolute_start(), 3), Some((0, 0)));
    terminal.reveal_buffer_row(2);
    assert_eq!(terminal.scroll_offset, 3);
    terminal.reveal_buffer_row(3);
    assert_eq!((terminal.scroll_offset, terminal.viewport_absolute_start()), (1, 2));
    terminal.reveal_buffer_row(5);
    assert_eq!(terminal.scroll_offset, 0);
}
