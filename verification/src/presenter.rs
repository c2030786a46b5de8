//! The decisions a native window adapter makes about frames: when a new
//! frame is due, which identifier it carries, what a full or stopped render
//! queue means, and which completed frame is presented.

use vstd::prelude::*;

use crate::pixel_buffer::PixelBuffer;
use crate::render::{SoftwareRenderResult, SubmitError, WindowAction};

verus! {

/// Frame bookkeeping of a native window adapter.
pub struct FramePacer {
    needs_render: bool,
    next_frame_id: u64,
}

/// The model of a [`FramePacer`].
pub struct PacerView {
    /// A frame must be rendered at the next redraw.
    pub needs_render: bool,
    /// The identifier the next rendered frame carries.
    pub next_frame_id: u64,
}

impl View for FramePacer {
    type V = PacerView;

    closed spec fn view(&self) -> PacerView {
        PacerView { needs_render: self.needs_render, next_frame_id: self.next_frame_id }
    }
}

/// The identifier after `id`, wrapping to zero after the largest one.
pub open spec fn following_frame_id(id: u64) -> u64 {
    if id == u64::MAX {
        0
    } else {
        (id + 1) as u64
    }
}

impl FramePacer {
    /// No frame is due yet and the first frame will carry identifier zero.
    pub fn new() -> (r: Self)
        ensures
            r@ == (PacerView { needs_render: false, next_frame_id: 0 }),
    {
        FramePacer { needs_render: false, next_frame_id: 0 }
    }

    /// Whether a frame must be rendered at the next redraw.
    pub fn needs_render(&self) -> (r: bool)
        ensures
            r == self@.needs_render,
    {
        self.needs_render
    }

    /// Marks a frame as due; the adapter then asks the window for a redraw.
    pub fn request_render(&mut self)
        ensures
            final(self)@ == (PacerView { needs_render: true, ..old(self)@ }),
    {
        self.needs_render = true;
    }

    /// Applies an application's answer to a window event and returns whether
    /// the event loop must exit. A redraw request makes a frame due.
    pub fn apply_action(&mut self, action: WindowAction) -> (exit: bool)
        ensures
            exit == (action == WindowAction::Exit),
            final(self)@ == if action == WindowAction::RequestRedraw {
                PacerView { needs_render: true, ..old(self)@ }
            } else {
                old(self)@
            },
    {
        match action {
            WindowAction::Continue => false,
            WindowAction::RequestRedraw => {
                self.request_render();
                false
            },
            WindowAction::Exit => true,
        }
    }

    /// At a redraw: when a frame is due, it is no longer due and the
    /// identifier it must carry is returned; otherwise nothing is rendered.
    pub fn begin_frame(&mut self) -> (r: Option<u64>)
        ensures
            old(self)@.needs_render ==> {
                &&& r == Some(old(self)@.next_frame_id)
                &&& final(self)@ == (PacerView {
                    needs_render: false,
                    next_frame_id: following_frame_id(old(self)@.next_frame_id),
                })
            },
            !old(self)@.needs_render ==> r is None && final(self)@ == old(self)@,
    {
        if !self.needs_render {
            return None;
        }
        self.needs_render = false;
        let frame_id = self.next_frame_id;
        self.next_frame_id = if frame_id == u64::MAX {
            0
        } else {
            frame_id + 1
        };
        Some(frame_id)
    }

    /// Records how the render queue answered a submitted frame: a full queue
    /// leaves the frame due again, a stopped worker means nothing more is
    /// rendered.
    pub fn submitted(&mut self, outcome: Result<(), SubmitError>)
        ensures
            final(self)@ == match outcome {
                Ok(()) => old(self)@,
                Err(SubmitError::QueueFull) => PacerView { needs_render: true, ..old(self)@ },
                Err(SubmitError::Stopped) => PacerView { needs_render: false, ..old(self)@ },
            },
    {
        match outcome {
            Ok(()) => {},
            Err(SubmitError::QueueFull) => {
                self.needs_render = true;
            },
            Err(SubmitError::Stopped) => {
                self.needs_render = false;
            },
        }
    }
}

/// The frame to present after a render result arrives: the newly rendered
/// pixels, or the previous frame when rendering failed.
pub fn keep_completed_frame(last: Option<PixelBuffer>, result: SoftwareRenderResult) -> (r: Option<
    PixelBuffer,
>)
    ensures
        r == match result.spec_result() {
            Ok(frame) => Some(frame),
            Err(_) => last,
        },
{
    match result.into_result() {
        Ok(frame) => Some(frame),
        Err(_) => last,
    }
}

} // verus!
