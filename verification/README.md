# jterm3

A terminal emulator for Linux: tabs, splits along one axis, a search through the whole
history, links, a file dock, a command palette, Kitty graphics, and sessions that come back
after a restart.

What the program does with the bytes of a shell, with keys, with the pointer and with its
own tabs and panes is a library, and is proved to do what its contracts say. The program
around it opens the window, starts the shells and reads and writes files.

## Layout

- `src/` is the library, verified with Verus.
  - `terminal/` is the terminal itself. `model.rs` says what a terminal is, `parser.rs` and
    the modules beside it what each byte and each sequence does to it. `cell.rs`, `grid.rs`
    and `scrollback.rs` hold the screen and the history, `kitty_graphics/` the images.
  - `terminal/laws.rs`, `terminal/pieces.rs`, `terminal/versions.rs`, `kitty_graphics/laws.rs`,
    `link/laws.rs` and `window/laws.rs` prove what holds of several operations together.
  - `keyboard.rs`, `input.rs`, `pointer.rs`, `session.rs` and `write_queue.rs` stand between
    the user and a shell.
  - `workspace.rs`, `tabs.rs`, `panes.rs`, `desk/`, `chrome.rs` and `window/` are the window
    with its tabs, panes, panels and settings: what happens, what changes, and what is asked
    of the program then.
  - `link/`, `sidebar.rs`, `command_palette.rs`, `tab_switcher.rs`, `search.rs`, `search_replace.rs`,
    `config.rs`, `status.rs`, `toasts.rs`, `color.rs`, `pty.rs` and `paths.rs` are the rest.
  - `outside.rs` holds the calls into other crates, with what is believed of them. A few more
    stand where they are used: in `text.rs`, `char_width.rs` and `terminal/params.rs`.
- `tests/` runs the library on examples.
- `app/` is the program: ordinary Rust around the library.
