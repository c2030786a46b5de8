//! The interaction state of a push button: which pointer pressed it,
//! whether a pointer is over it, and what each input means for focus,
//! pointer capture, repainting and activation.

use vstd::prelude::*;

use crate::input::PointerId;
use crate::runtime::EventPhase;
use crate::ui::EventStatus;

verus! {

/// An input as a button sees it. Whether a release happened inside the
/// button is decided from its bounds by the caller.
#[derive(Clone, Copy, Debug, PartialEq, Eq, Structural)]
pub enum ButtonInput {
    /// The primary button of `pointer` went down over the button.
    PrimaryDown(PointerId),
    /// The primary button of `pointer` was released, inside the button or not.
    PrimaryUp(PointerId, bool),
    /// A pointer started hovering over the button.
    PointerEnter,
    /// A pointer stopped hovering over the button.
    PointerLeave,
    /// Enter or Space was pressed, not as a key repeat.
    ActivationKey,
    /// Any other input.
    Other,
}

/// What a button asks of the runtime and its listeners after an input.
#[derive(Clone, Copy, Debug, PartialEq, Eq, Structural)]
pub struct ButtonResponse {
    /// Whether the button handled the input.
    pub status: EventStatus,
    /// A pointer to capture.
    pub capture: Option<PointerId>,
    /// A pointer capture to release.
    pub release: Option<PointerId>,
    /// Whether the button asks for keyboard focus.
    pub request_focus: bool,
    /// Whether the button asks for a repaint.
    pub request_redraw: bool,
    /// Whether the button's activation listeners run.
    pub activate: bool,
}

/// Which background a button paints.
#[derive(Clone, Copy, Debug, PartialEq, Eq, Structural)]
pub enum ButtonBackground {
    /// The button is pressed with the pointer over it.
    Pressed,
    /// A pointer hovers over the button.
    Hovered,
    /// Neither.
    Normal,
}

/// The interaction state of a push button.
#[derive(Clone, Copy, Debug, PartialEq, Eq, Structural)]
pub struct ButtonInteraction {
    /// Whether the button is held down.
    pub pressed: bool,
    /// The pointer that pressed it.
    pub pressed_pointer: Option<PointerId>,
    /// Whether a pointer is over the button.
    pub pointer_inside: bool,
}

/// A response that ignores the input.
pub open spec fn ignored() -> ButtonResponse {
    ButtonResponse {
        status: EventStatus::Ignored,
        capture: None,
        release: None,
        request_focus: false,
        request_redraw: false,
        activate: false,
    }
}

/// A response that handles the input and asks for a repaint.
pub open spec fn repaint() -> ButtonResponse {
    ButtonResponse { status: EventStatus::Handled, request_redraw: true, ..ignored() }
}

/// The state and response after `input` reaches a button in `phase`.
/// Capture-phase deliveries are ignored; a press captures the pointer and
/// asks for focus; only a release by the pressing pointer ends the press,
/// and it activates the button when it happens inside; hovering changes
/// only the hover state; Enter and Space activate directly.
pub open spec fn button_step(s: ButtonInteraction, phase: EventPhase, input: ButtonInput) -> (
    ButtonInteraction,
    ButtonResponse,
) {
    if phase == EventPhase::Capture {
        (s, ignored())
    } else {
        match input {
            ButtonInput::PrimaryDown(p) => (
                ButtonInteraction { pressed: true, pressed_pointer: Some(p), pointer_inside: true },
                ButtonResponse { capture: Some(p), request_focus: true, ..repaint() },
            ),
            ButtonInput::PrimaryUp(p, inside) => if s.pressed_pointer == Some(p) {
                (
                    ButtonInteraction { pressed: false, pressed_pointer: None, pointer_inside: false },
                    ButtonResponse { release: Some(p), activate: s.pressed && inside, ..repaint() },
                )
            } else {
                (s, ignored())
            },
            ButtonInput::PointerEnter => (ButtonInteraction { pointer_inside: true, ..s }, repaint()),
            ButtonInput::PointerLeave => (ButtonInteraction { pointer_inside: false, ..s }, repaint()),
            ButtonInput::ActivationKey => (s, ButtonResponse { activate: true, ..repaint() }),
            ButtonInput::Other => (s, ignored()),
        }
    }
}

impl ButtonInteraction {
    /// A released button with no pointer over it.
    pub fn new() -> (r: Self)
        ensures
            r == (ButtonInteraction { pressed: false, pressed_pointer: None, pointer_inside: false }),
    {
        ButtonInteraction { pressed: false, pressed_pointer: None, pointer_inside: false }
    }

    /// Applies `input`, delivered in `phase`, and returns what the button
    /// asks for.
    pub fn handle(&mut self, phase: EventPhase, input: ButtonInput) -> (r: ButtonResponse)
        ensures
            (*final(self), r) == button_step(*old(self), phase, input),
    {
        let ignore = ButtonResponse {
            status: EventStatus::Ignored,
            capture: None,
            release: None,
            request_focus: false,
            request_redraw: false,
            activate: false,
        };
        let redraw = ButtonResponse { status: EventStatus::Handled, request_redraw: true, ..ignore };
        if phase == EventPhase::Capture {
            return ignore;
        }
        match input {
            ButtonInput::PrimaryDown(p) => {
                self.pressed = true;
                self.pressed_pointer = Some(p);
                self.pointer_inside = true;
                ButtonResponse { capture: Some(p), request_focus: true, ..redraw }
            },
            ButtonInput::PrimaryUp(p, inside) => {
                let pressing = match self.pressed_pointer {
                    Some(q) => q == p,
                    None => false,
                };
                if !pressing {
                    return ignore;
                }
                let activate = self.pressed && inside;
                self.pressed = false;
                self.pressed_pointer = None;
                self.pointer_inside = false;
                ButtonResponse { release: Some(p), activate, ..redraw }
            },
            ButtonInput::PointerEnter => {
                self.pointer_inside = true;
                redraw
            },
            ButtonInput::PointerLeave => {
                self.pointer_inside = false;
                redraw
            },
            ButtonInput::ActivationKey => ButtonResponse { activate: true, ..redraw },
            ButtonInput::Other => ignore,
        }
    }

    /// The background to paint: pressed while held with the pointer over
    /// the button, hovered while a pointer is over it, normal otherwise.
    pub fn background(&self) -> (r: ButtonBackground)
        ensures
            r == if self.pressed && self.pointer_inside {
                ButtonBackground::Pressed
            } else if self.pointer_inside {
                ButtonBackground::Hovered
            } else {
                ButtonBackground::Normal
            },
    {
        if self.pressed && self.pointer_inside {
            ButtonBackground::Pressed
        } else if self.pointer_inside {
            ButtonBackground::Hovered
        } else {
            ButtonBackground::Normal
        }
    }
}

/// A button activates only through a release, inside it, by the pointer
/// that pressed it, or through the activation keys; a release by any other
/// pointer changes nothing.
pub proof fn law_only_the_pressing_pointer_activates_inside(
    s: ButtonInteraction,
    phase: EventPhase,
    input: ButtonInput,
)
    ensures
        button_step(s, phase, input).1.activate ==> phase != EventPhase::Capture && (
        input == ButtonInput::ActivationKey || (input matches ButtonInput::PrimaryUp(p, inside) && inside
            && s.pressed && s.pressed_pointer == Some(p))),
        (input matches ButtonInput::PrimaryUp(p, _) && s.pressed_pointer != Some(p)) ==> button_step(
            s,
            phase,
            input,
        ) == (s, ignored()),
{
}

} // verus!
