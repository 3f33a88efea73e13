//! Setting and resetting modes, switching screens, and resets.

use super::model::TerminalModel;
use super::modes::TerminalModes;
use super::state::{scrollback_view, TerminalState};
use super::types::Charset;
use crate::cell::{Color, CursorShape, StyleFlags};
use vstd::prelude::*;

verus! {

impl TerminalState {
    fn swap_buffers(&mut self)
        requires
            old(self).wf(),
        ensures
            final(self)@ == old(self)@.buffers_swapped(),
            final(self).grid.wf(),
            final(self).alt_grid.wf(),
            final(self).dirty_region.wf(),
            final(self).kitty_graphics == old(self).kitty_graphics,
            final(self).widest == old(self).widest,
            final(self).sync_output_start == old(self).sync_output_start,
    {
        std::mem::swap(&mut self.grid, &mut self.alt_grid);
        std::mem::swap(
            &mut self.keyboard_enhancement_flags,
            &mut self.alt_keyboard_enhancement_flags,
        );
        std::mem::swap(
            &mut self.keyboard_enhancement_stack,
            &mut self.alt_keyboard_enhancement_stack,
        );
    }

    /// Shows the alternate screen. All of 47, 1047 and 1049 swap the screens.
    fn enter_alt_screen(&mut self, mode: u16)
        requires
            old(self).wf(),
        ensures
            final(self).wf(),
            final(self)@ == old(self)@.alt_entered(mode),
            final(self).kitty_graphics == old(self).kitty_graphics,
            final(self).sync_output_start == old(self).sync_output_start,
            final(self).widest == old(self).widest,
    {
        proof {
            reveal(TerminalModel::alt_entered);
        }
        if self.use_alt_buffer {
            return;
        }
        self.swap_buffers();
        self.saved_cursor_row = self.cursor_row;
        self.saved_cursor_col = self.cursor_col;
        self.alt_cursor_row = self.cursor_row;
        self.alt_cursor_col = self.cursor_col;
        // The scrollback belongs to the main screen.
        self.scroll_offset = 0;
        self.use_alt_buffer = true;
        // A selection and a scroll region belong to the screen they were made on.
        self.selection = None;
        self.scroll_region_top = 0;
        self.scroll_region_bottom = self.grid.rows() - 1;
        self.clear_screen();
        self.modes.insert(mode);
    }

    /// Shows the main screen again.
    fn leave_alt_screen(&mut self, mode: u16)
        requires
            old(self).wf(),
        ensures
            final(self).wf(),
            final(self)@ == old(self)@.alt_left(mode),
            final(self).kitty_graphics == old(self).kitty_graphics,
            final(self).sync_output_start == old(self).sync_output_start,
            final(self).widest == old(self).widest,
    {
        proof {
            reveal(TerminalModel::alt_left);
        }
        if !self.use_alt_buffer {
            return;
        }
        self.swap_buffers();
        self.alt_cursor_row = self.cursor_row;
        self.alt_cursor_col = self.cursor_col;
        self.cursor_row = self.saved_cursor_row;
        self.cursor_col = self.saved_cursor_col;
        self.use_alt_buffer = false;
        self.modes.remove(mode);
        self.selection = None;
        self.scroll_region_top = 0;
        self.scroll_region_bottom = self.grid.rows() - 1;
        // The colours of the alternate screen must not bleed through.
        self.current_fg = Color::Default;
        self.current_bg = Color::Default;
        self.global_bg = Color::Default;
        self.current_flags = StyleFlags::new();
        // A jump of the version by more than the number of lines asks for a full
        // redraw.
        self.grid_version = self.grid_version.wrapping_add((self.grid.rows() + 1) as u64);
        self.touch_all();
    }

    fn insert_mode(&mut self, mode: u16)
        requires
            old(self).wf(),
        ensures
            final(self).wf(),
            final(self)@ == old(self)@.mode_inserted(mode),
            final(self).kitty_graphics == old(self).kitty_graphics,
            final(self).sync_output_start == old(self).sync_output_start,
            final(self).widest == old(self).widest,
    {
        self.modes.insert(mode);
    }

    fn remove_mode(&mut self, mode: u16)
        requires
            old(self).wf(),
        ensures
            final(self).wf(),
            final(self)@ == old(self)@.mode_removed(mode),
            final(self).kitty_graphics == old(self).kitty_graphics,
            final(self).sync_output_start == old(self).sync_output_start,
            final(self).widest == old(self).widest,
    {
        self.modes.remove(mode);
    }

    fn begin_sync_output(&mut self)
        requires
            old(self).wf(),
        ensures
            final(self).wf(),
            final(self)@ == (TerminalModel {
                sync_output_active: true,
                ..old(self)@.mode_inserted(2026)
            }),
            final(self).kitty_graphics == old(self).kitty_graphics,
            final(self).widest == old(self).widest,
    {
        self.modes.insert(2026);
        self.sync_output_active = true;
        self.sync_output_start = Some(crate::outside::now());
    }

    pub(crate) fn end_sync_output(&mut self)
        requires
            old(self).wf(),
        ensures
            final(self).wf(),
            final(self)@ == old(self)@.sync_output_ended(),
            final(self).kitty_graphics == old(self).kitty_graphics,
            final(self).sync_output_start is None,
            final(self).widest == old(self).widest,
    {
        proof {
            reveal(TerminalModel::sync_output_ended);
        }
        self.modes.remove(2026);
        self.sync_output_active = false;
        self.sync_output_start = None;
        self.touch_all();
    }

    /// Sets a mode: a DEC private one (CSI ? Pn h) or an ANSI one (CSI Pn h). The
    /// two share numbers, so they must not be mixed up.
    pub(crate) fn set_mode(&mut self, mode: u16, private: bool)
        requires
            old(self).wf(),
        ensures
            final(self).wf(),
            final(self)@ == old(self)@.mode_set(mode, private),
            final(self).kitty_graphics == old(self).kitty_graphics,
            !(private && mode == 2026) ==> final(self).sync_output_start == old(
                self,
            ).sync_output_start,
            final(self).widest == old(self).widest,
    {
        proof {
            reveal(TerminalModel::mode_set);
        }
        if !private {
            // Of the ANSI modes only IRM (4) is implemented.
            if mode == 4 {
                self.insert_mode(4);
            }
            return;
        }
        match mode {
            // DECSCLM (smooth scroll) is accepted and ignored.
            4 => {},
            1048 => self.save_cursor(),
            47 | 1047 | 1049 => self.enter_alt_screen(mode),
            2026 => self.begin_sync_output(),
            _ => self.insert_mode(mode),
        }
    }

    /// Resets a mode: a DEC private one (CSI ? Pn l) or an ANSI one (CSI Pn l).
    pub(crate) fn reset_mode(&mut self, mode: u16, private: bool)
        requires
            old(self).wf(),
        ensures
            final(self).wf(),
            final(self)@ == old(self)@.mode_reset(mode, private),
            final(self).kitty_graphics == old(self).kitty_graphics,
            !(private && mode == 2026) ==> final(self).sync_output_start == old(
                self,
            ).sync_output_start,
            final(self).widest == old(self).widest,
    {
        proof {
            reveal(TerminalModel::mode_reset);
        }
        if !private {
            if mode == 4 {
                self.remove_mode(4);
            }
            return;
        }
        match mode {
            4 => {},
            1048 => {
                self.restore_cursor();
                self.remove_mode(1048);
            },
            47 | 1047 | 1049 => self.leave_alt_screen(mode),
            2026 => self.end_sync_output(),
            _ => self.remove_mode(mode),
        }
    }

    pub(crate) fn set_modes(&mut self, modes: &[u16], private: bool)
        requires
            old(self).wf(),
        ensures
            final(self).wf(),
            final(self)@ == old(self)@.modes_set(modes@, private),
            final(self).kitty_graphics == old(self).kitty_graphics,
            !(private && modes@.contains(2026)) ==> final(self).sync_output_start == old(
                self,
            ).sync_output_start,
            final(self).widest == old(self).widest,
    {
        let mut i: usize = 0;
        proof {
            assert(modes@.subrange(0, 0) =~= Seq::empty());
        }
        while i < modes.len()
            invariant
                i <= modes@.len(),
                self.wf(),
                self@ == old(self)@.modes_set(modes@.subrange(0, i as int), private),
                self.kitty_graphics == old(self).kitty_graphics,
                !(private && modes@.contains(2026)) ==> self.sync_output_start == old(
                    self,
                ).sync_output_start,
                self.widest == old(self).widest,
            decreases modes@.len() - i,
        {
            proof {
                assert(modes@.subrange(0, i + 1).drop_last() =~= modes@.subrange(0, i as int));
                assert(modes@.contains(modes@[i as int]));
            }
            self.set_mode(modes[i], private);
            i = i + 1;
        }
        proof {
            assert(modes@.subrange(0, i as int) =~= modes@);
        }
    }

    pub(crate) fn reset_modes(&mut self, modes: &[u16], private: bool)
        requires
            old(self).wf(),
        ensures
            final(self).wf(),
            final(self)@ == old(self)@.modes_reset(modes@, private),
            final(self).kitty_graphics == old(self).kitty_graphics,
            !(private && modes@.contains(2026)) ==> final(self).sync_output_start == old(
                self,
            ).sync_output_start,
            final(self).widest == old(self).widest,
    {
        let mut i: usize = 0;
        proof {
            assert(modes@.subrange(0, 0) =~= Seq::empty());
        }
        while i < modes.len()
            invariant
                i <= modes@.len(),
                self.wf(),
                self@ == old(self)@.modes_reset(modes@.subrange(0, i as int), private),
                self.kitty_graphics == old(self).kitty_graphics,
                !(private && modes@.contains(2026)) ==> self.sync_output_start == old(
                    self,
                ).sync_output_start,
                self.widest == old(self).widest,
            decreases modes@.len() - i,
        {
            proof {
                assert(modes@.subrange(0, i + 1).drop_last() =~= modes@.subrange(0, i as int));
                assert(modes@.contains(modes@[i as int]));
            }
            self.reset_mode(modes[i], private);
            i = i + 1;
        }
        proof {
            assert(modes@.subrange(0, i as int) =~= modes@);
        }
    }

    /// RIS (ESC c): the initial state. Like xterm it also discards the saved lines
    /// and resets cursor style, dynamic colours, keyboard protocol, selection and
    /// any open hyperlink.
    pub(crate) fn full_reset(&mut self)
        requires
            old(self).wf(),
        ensures
            final(self).wf(),
            final(self)@ == old(self)@.reset_to_initial(),
            final(self).kitty_graphics == old(self).kitty_graphics,
            final(self).sync_output_start == old(self).sync_output_start,
            final(self).widest == old(self).widest,
    {
        proof {
            reveal(TerminalModel::reset_to_initial);
        }
        if self.use_alt_buffer {
            self.leave_alt_screen(1049);
        }
        self.current_fg = Color::Default;
        self.current_bg = Color::Default;
        self.global_bg = Color::Default;
        self.current_flags = StyleFlags::new();
        self.g0_charset = Charset::Ascii;
        self.g1_charset = Charset::Ascii;
        self.active_charset = Charset::Ascii;
        self.scroll_region_top = 0;
        self.scroll_region_bottom = self.grid.rows() - 1;
        self.tab_stops = Self::default_tab_stops(self.grid.row_len());
        self.saved_cursor = None;
        self.modes = TerminalModes::new();
        self.modes.insert(25);
        self.modes.insert(7);
        self.scroll_offset = 0;
        self.scrollback.clear();
        proof {
            assert(scrollback_view(self.scrollback@) =~= Seq::empty());
        }
        self.cursor_shape = CursorShape::default();
        self.dynamic_fg = None;
        self.dynamic_bg = None;
        self.dynamic_cursor_color = None;
        self.keyboard_enhancement_flags = 0;
        self.keyboard_enhancement_stack.clear();
        self.alt_keyboard_enhancement_flags = 0;
        self.alt_keyboard_enhancement_stack.clear();
        self.selection = None;
        self.current_hyperlink = None;
        self.clear_screen();
    }

    /// DECSTR (CSI ! p): soft reset. The screen and the scrollback stay.
    pub(crate) fn soft_reset(&mut self)
        requires
            old(self).wf(),
        ensures
            final(self).wf(),
            final(self)@ == old(self)@.soft_reset(),
            final(self).kitty_graphics == old(self).kitty_graphics,
            final(self).sync_output_start == old(self).sync_output_start,
            final(self).widest == old(self).widest,
    {
        proof {
            reveal(TerminalModel::soft_reset);
        }
        self.current_fg = Color::Default;
        self.current_bg = Color::Default;
        self.global_bg = Color::Default;
        self.current_flags = StyleFlags::new();
        self.g0_charset = Charset::Ascii;
        self.g1_charset = Charset::Ascii;
        self.active_charset = Charset::Ascii;
        self.scroll_region_top = 0;
        self.scroll_region_bottom = self.grid.rows() - 1;
        self.saved_cursor = None;
        self.modes.remove(6);
        self.modes.remove(4);
        self.modes.insert(25);
        self.modes.insert(7);
    }
}

} // verus!
