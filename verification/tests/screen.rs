use jterm3::cell::{Color, CursorShape, StyleFlags, TerminalCell, UnderlineStyle};
use jterm3::color::{cell_colors, resolve_fg, PaletteColor};
use jterm3::grid::TerminalGrid;
use jterm3::link::open::{link_target, LinkTarget};
use jterm3::link::{Link, LinkType};
use jterm3::scrollback::ScrollbackLine;
use jterm3::terminal::{Charset, DirtyRegion, SelectionMode, TerminalState, ZoneState};
use jterm3::terminal_view::{
    highlight_span, image_label, is_drawn, is_scrollbar_shown, link_at, match_span,
};

fn cell(character: char) -> TerminalCell {
    TerminalCell { character, ..TerminalCell::default() }
}

fn line(grid: &TerminalGrid, row: usize) -> String {
    grid.row(row).iter().map(|cell| cell.character).collect()
}

fn fed(input: &str) -> TerminalState {
    let mut terminal = TerminalState::new(10, 4);
    terminal.process_input(input.as_bytes());
    terminal
}

#[test]
fn printed_text_comes_back_by_copying() {
    let mut terminal = fed("ab\r\n  x");
    terminal.process_input(b"hello");
    assert_eq!(line(&terminal.grid, 1), "  xhello  ");
    assert_eq!(terminal.get_cursor_pos(), (1, 8));
    terminal.start_selection((1, 3));
    terminal.update_selection((1, 7));
    assert_eq!(terminal.copy_selection().as_deref(), Some("hello"));
    terminal.select_text((0, 1), (1, 2));
    assert_eq!(terminal.copy_selection().as_deref(), Some("b        \n  x"));
    assert_eq!(terminal.selection.map(|s| s.mode), Some(SelectionMode::Normal));
}

#[test]
fn a_block_is_copied_column_by_column() {
    let mut terminal = fed("abcd\r\nefgh");
    terminal.start_block_selection((0, 1));
    terminal.update_selection((1, 2));
    assert_eq!(terminal.copy_selection().as_deref(), Some("bc\nfg"));
    assert_eq!(terminal.selection.map(|s| s.mode), Some(SelectionMode::Block));
}

#[test]
fn text_in_any_script_is_shown() {
    let terminal = fed("日本é𝄞");
    let row = terminal.grid.row(0);
    assert_eq!((row[0].character, row[2].character), ('日', '本'));
    assert!(row[0].flags.wide() && !row[0].flags.wide_continuation());
    assert!(row[1].flags.wide_continuation() && row[3].flags.wide_continuation());
    assert_eq!((row[4].character, row[5].character), ('é', '𝄞'));
    assert_eq!(terminal.get_cursor_pos(), (0, 6));
}

#[test]
fn a_wide_character_that_does_not_fit_goes_to_the_next_line() {
    let terminal = fed("123456789日");
    assert_eq!(line(&terminal.grid, 0), "123456789 ");
    assert_eq!(terminal.grid.get(1, 0).character, '日');
    assert_eq!(terminal.get_cursor_pos(), (1, 2));
}

#[test]
fn line_drawing_stands_for_letters() {
    let terminal = fed("\x1b(0qx\x1b(Bq");
    assert_eq!(line(&terminal.grid, 0), "─│q       ");
    assert_eq!(terminal.active_charset, Charset::Ascii);
    assert_eq!(fed("\x1b(0").active_charset, Charset::DecSpecialGraphics);
}

#[test]
fn cursor_shapes_and_underlines_are_told_apart() {
    assert_eq!(fed("").cursor_shape, CursorShape::Block);
    assert_eq!(fed("\x1b[3 q").cursor_shape, CursorShape::Beam);
    let styles = [
        ("\x1b[4mx", UnderlineStyle::Single),
        ("\x1b[4:2mx", UnderlineStyle::Double),
        ("\x1b[4:3mx", UnderlineStyle::Curly),
        ("\x1b[4:4mx", UnderlineStyle::Dotted),
        ("\x1b[4:5mx", UnderlineStyle::Dashed),
        ("\x1b[4m\x1b[24mx", UnderlineStyle::Off),
    ];
    for (input, style) in styles {
        assert_eq!(fed(input).grid.get(0, 0).flags.underline(), style, "{input:?}");
    }
}

#[test]
fn colours_come_from_their_numbers() {
    let dark = [Color::Black, Color::Red, Color::Green, Color::Yellow];
    for (i, color) in dark.into_iter().enumerate() {
        assert_eq!(fed(&format!("\x1b[{}mx", 30 + i)).grid.get(0, 0).foreground, color);
    }
    assert_eq!(fed("\x1b[35mx").grid.get(0, 0).foreground, Color::Magenta);
    assert_eq!(fed("\x1b[47mx").grid.get(0, 0).background, Color::White);
    let bright = [
        Color::BrightBlack,
        Color::BrightRed,
        Color::BrightGreen,
        Color::BrightYellow,
        Color::BrightBlue,
        Color::BrightMagenta,
        Color::BrightCyan,
        Color::BrightWhite,
    ];
    for (i, color) in bright.into_iter().enumerate() {
        assert_eq!(fed(&format!("\x1b[{}mx", 90 + i)).grid.get(0, 0).foreground, color);
        assert_eq!(fed(&format!("\x1b[{}mx", 100 + i)).grid.get(0, 0).background, color);
    }
}

#[test]
fn prompts_and_output_are_kept_as_zones() {
    assert!(matches!(fed("").current_zone_state, ZoneState::Idle));
    let mut terminal = fed("\x1b]133;A\x07$ ");
    assert!(matches!(terminal.current_zone_state, ZoneState::PromptStarted(0)));
    terminal.process_input(b"\x1b]133;B\x07ls\r\n");
    assert!(matches!(terminal.current_zone_state, ZoneState::CommandStarted(0, 0)));
    terminal.process_input(b"\x1b]133;C\x07file\r\n");
    assert!(matches!(terminal.current_zone_state, ZoneState::OutputStarted(0, 0, 1)));
    terminal.process_input(b"\x1b]133;D;3\x07");
    assert!(matches!(terminal.current_zone_state, ZoneState::Idle));
    let zone = &terminal.command_zones[0];
    assert_eq!((zone.prompt_start, zone.exit_code), (0, Some(3)));
    assert_eq!((zone.output_start, zone.output_end), (Some(1), Some(2)));
}

#[test]
fn lines_of_a_grid_are_changed_one_by_one() {
    let mut grid = TerminalGrid::new(3, 4);
    assert_eq!((grid.row_len(), grid.len(), grid.is_empty()), (4, 3, false));
    grid.set_row(0, "abcdef".chars().map(cell).collect());
    grid.set_row(1, "xy".chars().map(cell).collect());
    assert_eq!((line(&grid, 0).as_str(), line(&grid, 1).as_str()), ("abcd", "xy  "));
    grid.insert_cell_in_row(0, 1, cell('-'));
    assert_eq!(line(&grid, 0), "a-bc");
    grid.remove_cell_from_row(0, 0);
    assert_eq!(line(&grid, 0), "-bc ");
    grid.insert_cell_in_row(9, 0, cell('-'));
    grid.remove_cell_from_row(0, 9);
    assert_eq!(line(&grid, 0), "-bc ");
    grid.row_wrapped[0] = true;
    let (first, wrapped) = grid.remove_first_row();
    assert_eq!(first.iter().map(|cell| cell.character).collect::<String>(), "-bc ");
    assert!(wrapped);
    assert_eq!((line(&grid, 0).as_str(), line(&grid, 2).as_str()), ("xy  ", "    "));
    grid.fill_last_row(cell('.'));
    grid.shift_rows_up();
    assert_eq!(line(&grid, 1), "....");
    assert_eq!(grid.get_row(1), vec![cell('.'); 4]);
}

#[test]
fn attributes_are_set_and_read_one_by_one() {
    let mut flags = StyleFlags::new();
    assert!(flags.is_default_style());
    flags.set_bold(true);
    flags.set_italic(true);
    flags.set_inverse(true);
    flags.set_dim(true);
    flags.set_blink(true);
    flags.set_strikethrough(true);
    flags.set_underline(UnderlineStyle::Dotted);
    assert!(flags.bold() && flags.italic() && flags.inverse() && flags.dim());
    assert!(flags.blink() && flags.strikethrough());
    assert_eq!(flags.underline(), UnderlineStyle::Dotted);
    assert!(!flags.is_default_style() && !flags.wide());
    flags.set_dim(false);
    assert!(!flags.dim() && flags.bold());
    let mut flags = StyleFlags::new();
    flags.set_wide(true);
    flags.set_wide_continuation(true);
    assert!(flags.is_default_style() && flags.wide() && flags.wide_continuation());
}

#[test]
fn a_kept_line_comes_back() {
    let cells: Vec<TerminalCell> = "ab  ".chars().map(cell).collect();
    let kept = ScrollbackLine::compress(&cells, true);
    assert!(kept.is_wrapped);
    assert_eq!(kept.decompress(), cells);
    assert_eq!(kept.cells(), cells);
}

#[test]
fn bold_is_bright_and_inverse_swaps() {
    let shade = resolve_fg(Color::Red, true, true);
    assert_eq!((shade.color, shade.dim), (PaletteColor::Ansi(9), true));
    assert_eq!(resolve_fg(Color::Red, false, false).color, PaletteColor::Ansi(1));
    assert_eq!(resolve_fg(Color::BrightRed, true, false).color, PaletteColor::Ansi(9));
    let mut shown = cell('x');
    shown.background = Color::Blue;
    let colors = cell_colors(&shown);
    assert_eq!(
        (colors.text.color, colors.behind.color),
        (PaletteColor::Foreground, PaletteColor::Ansi(4))
    );
    shown.flags.set_inverse(true);
    let colors = cell_colors(&shown);
    assert_eq!(
        (colors.text.color, colors.behind.color),
        (PaletteColor::Ansi(4), PaletteColor::Foreground)
    );
}

#[test]
fn highlights_end_with_the_line() {
    assert_eq!(highlight_span(2, 5, 10), Some((2, 5)));
    assert_eq!(highlight_span(2, usize::MAX, 10), Some((2, 9)));
    assert_eq!(highlight_span(5, 2, 10), None);
    assert_eq!(match_span(2, 5, 10), Some((2, 4)));
    assert_eq!(match_span(2, 2, 10), None);
    assert_eq!(match_span(0, 0, 10), Some((0, 0)));
}

#[test]
fn little_things_about_drawing() {
    assert!(is_drawn('x') && !is_drawn(' ') && !is_drawn('\0'));
    assert!(is_scrollbar_shown(true, 0, 1) && !is_scrollbar_shown(true, 0, 0));
    assert!(!is_scrollbar_shown(false, 0, 9) && is_scrollbar_shown(false, 1, 9));
    assert_eq!(image_label(7, 640, 480), "#7 (640x480)");
}

#[test]
fn the_first_link_at_a_cell_counts() {
    let link = |line, col_start, col_end, text: &str| Link {
        line,
        col_start,
        col_end,
        link_type: LinkType::FilePath,
        text: text.to_string(),
    };
    let links = [link(0, 2, 5, "/a"), link(1, 2, 5, "/b"), link(1, 4, 8, "/c")];
    assert_eq!(link_at(&links, 4, 1).map(|l| l.text.as_str()), Some("/b"));
    assert_eq!(link_at(&links, 5, 1).map(|l| l.text.as_str()), Some("/c"));
    assert!(link_at(&links, 5, 0).is_none() && link_at(&links, 1, 1).is_none());
    assert!(matches!(link_target(&links[0]), LinkTarget::File(path) if path == "/a"));
}

#[test]
fn changed_lines_are_kept_as_ranges() {
    let mut region = DirtyRegion::new(80);
    region.mark_row(2);
    region.mark_row(3);
    region.mark_row(7);
    assert_eq!(region.rows, [(2, 3), (7, 7)]);
    region.mark_rows(9, 11);
    assert_eq!(region.rows, [(2, 3), (7, 7), (9, 11)]);
    region.mark_rows(5, 4);
    assert_eq!(region.rows.len(), 3);
    region.mark_all(24);
    assert_eq!(region.rows, [(0, 23)]);
    region.clear();
    assert!(region.rows.is_empty());
}

#[test]
fn what_a_program_asks_for_can_be_read_back() {
    let mut terminal = fed("\x1b[?2004h");
    assert!(terminal.is_bracketed_paste_mode() && terminal.is_bracketed_paste_enabled());
    assert!(!terminal.is_paste_events_enabled());
    terminal.modes.remove(2004);
    assert!(!terminal.is_bracketed_paste_mode());
    terminal.modes.insert(2004);
    assert!(terminal.is_bracketed_paste_mode());
    terminal.reply_bytes(b"hi");
    assert_eq!(terminal.get_output(), b"hi");
    assert!(terminal.get_output().is_empty());
}

#[test]
fn lines_of_a_grid_are_written_in_place() {
    let mut grid = TerminalGrid::new(3, 2);
    for (r, line) in grid.iter_mut().into_iter().enumerate() {
        assert_eq!(line.len(), 2);
        line[r % 2] = cell(['a', 'b', 'c'][r]);
    }
    assert_eq!(line(&grid, 0), "a ");
    assert_eq!(line(&grid, 1), " b");
    assert_eq!(line(&grid, 2), "c ");

    grid.row_mut(1).fill(cell('x'));
    assert_eq!(line(&grid, 0), "a ");
    assert_eq!(line(&grid, 1), "xx");
    assert_eq!(line(&grid, 2), "c ");
    assert_eq!(&grid[1], grid.row(1));
    assert_eq!(grid[2][0].character, 'c');
}
