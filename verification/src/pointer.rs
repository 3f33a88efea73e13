//! What the pointer does over a terminal: a report to the program, a selection, a scroll.

use crate::terminal_view::{MouseButton, MouseInput};
use vstd::prelude::*;

verus! {

/// The number of a button in reports.
pub open spec fn button_code(button: MouseButton) -> u8 {
    match button {
        MouseButton::Left => 0,
        MouseButton::Middle => 1,
        MouseButton::Right => 2,
    }
}

pub fn btn_code(button: MouseButton) -> (code: u8)
    ensures
        code == button_code(button),
{
    match button {
        MouseButton::Left => 0,
        MouseButton::Middle => 1,
        MouseButton::Right => 2,
    }
}

/// What is known besides what the pointer does.
#[derive(Debug, Clone, Copy, PartialEq, Eq, Structural)]
pub struct PointerContext {
    pub shift: bool,
    pub control: bool,
    /// The link under the pointer, by its place.
    pub link: Option<usize>,
    /// Whether the program wants to be told of the pointer, and of its motion.
    pub mouse_enabled: bool,
    pub motion_enabled: bool,
    /// How many presses in a row a drag started with.
    pub drag_count: u32,
    /// How many lines the wheel was turned.
    pub lines: u32,
    /// How many lines of the view a line of the wheel is.
    pub scroll_speed: u32,
}

impl PointerContext {
    /// Whether the program is told: Shift keeps the pointer for the terminal.
    pub open spec fn reports(self) -> bool {
        self.mouse_enabled && !self.shift
    }

    /// The lines that the wheel was turned, at least one.
    pub open spec fn turned(self) -> int {
        if self.lines > 1 {
            self.lines as int
        } else {
            1
        }
    }

    /// How far the wheel scrolls.
    pub open spec fn scrolled(self) -> int {
        (if self.scroll_speed > 1 {
            self.scroll_speed as int
        } else {
            1
        }) * self.turned()
    }
}

/// What is to be done about the pointer.
#[derive(Debug, Clone, Copy, PartialEq, Eq, Structural)]
pub enum PointerAction {
    Nothing,
    OpenLink(usize),
    /// The program is told, so many times.
    Report { code: u8, col: usize, row: usize, times: u32 },
    ReportRelease { code: u8, col: usize, row: usize },
    StartSelection { row: usize, col: usize },
    StartBlockSelection { row: usize, col: usize },
    SelectWord { row: usize, col: usize },
    SelectLine { row: usize },
    ExtendSelection { row: usize, col: usize },
    ExtendWord { row: usize, col: usize },
    ExtendLine { row: usize },
    /// What is selected becomes the primary selection.
    CopyPrimary,
    PastePrimary,
    /// The font grows or shrinks by so many points.
    ZoomFont { larger: bool, points: u32 },
    Scroll(isize),
    ScrollTo(usize),
}

/// What is to be done about the pointer. A link that is clicked with Ctrl comes first;
/// then the program, where it wants to be told; then the selection and the view.
pub open spec fn pointer_action(input: MouseInput, context: PointerContext) -> PointerAction {
    match input {
        MouseInput::Press { col, row, button, shift, alt, count } => if button == MouseButton::Left
            && context.control && context.link is Some {
            PointerAction::OpenLink(context.link->0)
        } else if context.reports() {
            PointerAction::Report { code: button_code(button), col, row, times: 1 }
        } else {
            match button {
                MouseButton::Left => if count == 2 {
                    PointerAction::SelectWord { row, col }
                } else if count >= 3 {
                    PointerAction::SelectLine { row }
                } else if alt {
                    PointerAction::StartBlockSelection { row, col }
                } else {
                    PointerAction::StartSelection { row, col }
                },
                MouseButton::Middle => PointerAction::PastePrimary,
                MouseButton::Right => PointerAction::Nothing,
            }
        },
        MouseInput::Drag { col, row } => if context.reports() {
            if context.motion_enabled {
                PointerAction::Report { code: 32, col, row, times: 1 }
            } else {
                PointerAction::Nothing
            }
        } else if context.drag_count == 2 {
            PointerAction::ExtendWord { row, col }
        } else if context.drag_count >= 3 {
            PointerAction::ExtendLine { row }
        } else {
            PointerAction::ExtendSelection { row, col }
        },
        MouseInput::Release { col, row, button } => if context.reports() {
            PointerAction::ReportRelease { code: button_code(button), col, row }
        } else if button == MouseButton::Left {
            PointerAction::CopyPrimary
        } else {
            PointerAction::Nothing
        },
        MouseInput::Wheel { col, row, up } => if context.control {
            PointerAction::ZoomFont { larger: up, points: context.turned() as u32 }
        } else if context.reports() {
            PointerAction::Report {
                code: if up {
                    64
                } else {
                    65
                },
                col,
                row,
                times: context.turned() as u32,
            }
        } else if up {
            PointerAction::Scroll(context.scrolled() as isize)
        } else {
            PointerAction::Scroll((-context.scrolled()) as isize)
        },
        MouseInput::ScrollTo { offset } => PointerAction::ScrollTo(offset),
    }
}

fn press_action(
    context: PointerContext,
    col: usize,
    row: usize,
    button: MouseButton,
    alt: bool,
    count: u32,
) -> (action: PointerAction)
    ensures
        forall|shift: bool|
            action == #[trigger] pointer_action(
                (MouseInput::Press { col, row, button, shift, alt, count }),
                context,
            ),
{
    if button == MouseButton::Left && context.control {
        if let Some(link) = context.link {
            return PointerAction::OpenLink(link);
        }
    }
    if context.mouse_enabled && !context.shift {
        return PointerAction::Report { code: btn_code(button), col, row, times: 1 };
    }
    match button {
        MouseButton::Left => {
            if count == 2 {
                PointerAction::SelectWord { row, col }
            } else if count >= 3 {
                PointerAction::SelectLine { row }
            } else if alt {
                PointerAction::StartBlockSelection { row, col }
            } else {
                PointerAction::StartSelection { row, col }
            }
        },
        MouseButton::Middle => PointerAction::PastePrimary,
        MouseButton::Right => PointerAction::Nothing,
    }
}

fn wheel_action(context: PointerContext, col: usize, row: usize, up: bool) -> (action: PointerAction)
    requires
        context.scrolled() <= isize::MAX,
    ensures
        action == pointer_action((MouseInput::Wheel { col, row, up }), context),
{
    let lines: u32 = if context.lines > 1 {
        context.lines
    } else {
        1
    };
    if context.control {
        return PointerAction::ZoomFont { larger: up, points: lines };
    }
    if context.mouse_enabled && !context.shift {
        let code: u8 = if up {
            64
        } else {
            65
        };
        return PointerAction::Report { code, col, row, times: lines };
    }
    let speed: u32 = if context.scroll_speed > 1 {
        context.scroll_speed
    } else {
        1
    };
    proof {
        assert(speed * lines >= speed && speed * lines >= lines) by (nonlinear_arith)
            requires
                speed >= 1,
                lines >= 1,
        ;
    }
    let step: isize = speed as isize * lines as isize;
    if up {
        PointerAction::Scroll(step)
    } else {
        PointerAction::Scroll(-step)
    }
}

/// What is to be done about the pointer.
pub fn handle_mouse(input: MouseInput, context: PointerContext) -> (action: PointerAction)
    requires
        input is Wheel ==> context.scrolled() <= isize::MAX,
    ensures
        action == pointer_action(input, context),
{
    let report = context.mouse_enabled && !context.shift;
    match input {
        MouseInput::Press { col, row, button, shift: _, alt, count } => press_action(
            context,
            col,
            row,
            button,
            alt,
            count,
        ),
        MouseInput::Drag { col, row } => {
            if report {
                if context.motion_enabled {
                    PointerAction::Report { code: 32, col, row, times: 1 }
                } else {
                    PointerAction::Nothing
                }
            } else if context.drag_count == 2 {
                PointerAction::ExtendWord { row, col }
            } else if context.drag_count >= 3 {
                PointerAction::ExtendLine { row }
            } else {
                PointerAction::ExtendSelection { row, col }
            }
        },
        MouseInput::Release { col, row, button } => {
            if report {
                PointerAction::ReportRelease { code: btn_code(button), col, row }
            } else if button == MouseButton::Left {
                PointerAction::CopyPrimary
            } else {
                PointerAction::Nothing
            }
        },
        MouseInput::Wheel { col, row, up } => wheel_action(context, col, row, up),
        MouseInput::ScrollTo { offset } => PointerAction::ScrollTo(offset),
    }
}

/// With Shift the program is never told of the pointer.
pub proof fn shift_keeps_the_pointer(input: MouseInput, context: PointerContext)
    requires
        context.shift,
    ensures
        !(pointer_action(input, context) is Report),
        !(pointer_action(input, context) is ReportRelease),
{
}

/// A program that wants to be told is told of the cell, and of the button: 0 for the left, 1
/// for the middle, 2 for the right one, 64 and 65 for the wheel up and down, 32 for a motion.
pub proof fn reports_name_the_button_and_the_cell(
    context: PointerContext,
    col: usize,
    row: usize,
    alt: bool,
    count: u32,
)
    requires
        context.mouse_enabled,
        !context.shift,
        !context.control,
        context.lines >= 1,
    ensures
        ({
            let press = |button: MouseButton|
                pointer_action(
                    MouseInput::Press { col, row, button, shift: false, alt, count },
                    context,
                );
            let release = |button: MouseButton|
                pointer_action(MouseInput::Release { col, row, button }, context);
            &&& press(MouseButton::Left) == (PointerAction::Report { code: 0, col, row, times: 1 })
            &&& press(MouseButton::Middle) == (PointerAction::Report { code: 1, col, row, times: 1 })
            &&& press(MouseButton::Right) == (PointerAction::Report { code: 2, col, row, times: 1 })
            &&& release(MouseButton::Left) == (PointerAction::ReportRelease { code: 0, col, row })
            &&& release(MouseButton::Middle) == (PointerAction::ReportRelease { code: 1, col, row })
            &&& release(MouseButton::Right) == (PointerAction::ReportRelease { code: 2, col, row })
            &&& pointer_action(MouseInput::Wheel { col, row, up: true }, context) == (
            PointerAction::Report { code: 64, col, row, times: context.lines })
            &&& pointer_action(MouseInput::Wheel { col, row, up: false }, context) == (
            PointerAction::Report { code: 65, col, row, times: context.lines })
            &&& context.motion_enabled ==> pointer_action(MouseInput::Drag { col, row }, context)
                == (PointerAction::Report { code: 32, col, row, times: 1 })
            &&& !context.motion_enabled ==> pointer_action(MouseInput::Drag { col, row }, context)
                == PointerAction::Nothing
        }),
{
}

/// Otherwise the left button selects: with one press from the cell on, in a block with Alt,
/// with two presses the word and with three the line; a drag goes on with what the presses
/// began, and a release copies it. The middle button pastes.
pub proof fn the_left_button_selects(
    context: PointerContext,
    col: usize,
    row: usize,
    shift: bool,
    count: u32,
)
    requires
        !context.mouse_enabled,
        context.link is None || !context.control,
    ensures
        ({
            let press = |alt: bool, count: u32|
                pointer_action(
                    MouseInput::Press { col, row, button: MouseButton::Left, shift, alt, count },
                    context,
                );
            let drag = pointer_action(MouseInput::Drag { col, row }, context);
            &&& press(false, 1) == (PointerAction::StartSelection { row, col })
            &&& press(true, 1) == (PointerAction::StartBlockSelection { row, col })
            &&& press(false, 2) == (PointerAction::SelectWord { row, col })
            &&& count >= 3 ==> press(false, count) == (PointerAction::SelectLine { row })
            &&& context.drag_count <= 1 ==> drag == (PointerAction::ExtendSelection { row, col })
            &&& context.drag_count == 2 ==> drag == (PointerAction::ExtendWord { row, col })
            &&& context.drag_count >= 3 ==> drag == (PointerAction::ExtendLine { row })
            &&& pointer_action(
                MouseInput::Release { col, row, button: MouseButton::Left },
                context,
            ) == PointerAction::CopyPrimary
            &&& pointer_action(
                MouseInput::Press {
                    col,
                    row,
                    button: MouseButton::Middle,
                    shift,
                    alt: false,
                    count,
                },
                context,
            ) == PointerAction::PastePrimary
        }),
{
}

/// A link under the pointer is opened by the left button with Ctrl, whatever the program
/// wants to be told.
pub proof fn a_link_is_opened_with_ctrl(
    context: PointerContext,
    link: usize,
    col: usize,
    row: usize,
    shift: bool,
    alt: bool,
    count: u32,
)
    requires
        context.control,
        context.link == Some(link),
    ensures
        pointer_action(
            MouseInput::Press { col, row, button: MouseButton::Left, shift, alt, count },
            context,
        ) == PointerAction::OpenLink(link),
{
}

/// The wheel scrolls the view up by the lines that it was turned, times the speed, and down
/// by as many; with Ctrl it makes the font larger and smaller.
pub proof fn the_wheel_scrolls_both_ways(context: PointerContext, col: usize, row: usize)
    requires
        !context.mouse_enabled || context.shift,
        1 <= context.lines <= 100,
        1 <= context.scroll_speed <= 100,
    ensures
        ({
            let up = pointer_action(MouseInput::Wheel { col, row, up: true }, context);
            let down = pointer_action(MouseInput::Wheel { col, row, up: false }, context);
            &&& !context.control ==> up == PointerAction::Scroll(
                (context.lines * context.scroll_speed) as isize,
            )
            &&& !context.control ==> down == PointerAction::Scroll(
                (-(context.lines * context.scroll_speed)) as isize,
            )
            &&& context.control ==> up == (PointerAction::ZoomFont {
                larger: true,
                points: context.lines,
            })
            &&& context.control ==> down == (PointerAction::ZoomFont {
                larger: false,
                points: context.lines,
            })
        }),
{
    assert(context.scrolled() == context.lines * context.scroll_speed) by (nonlinear_arith)
        requires
            1 <= context.lines,
            1 <= context.scroll_speed,
            context.scrolled() == context.scroll_speed * context.lines,
    ;
}

} // verus!
