//! Renderer results, errors, glyph bitmaps, and integer scissor rectangles.

use vstd::prelude::*;

use crate::pixel_buffer::{PixelBuffer, PixelBufferError};

verus! {

/// Why the software renderer could not execute a display list.
#[derive(Clone, Copy, Debug, PartialEq, Eq, Structural)]
pub enum RenderError {
    /// A coordinate, radius, width, or transform component was not finite.
    NonFiniteGeometry,
    /// A scale factor was not finite and positive.
    InvalidScaleFactor,
    /// A transformed operation required an inverse of a singular transform.
    SingularTransform,
    /// A restore was issued without a preceding save.
    UnmatchedRestore,
    /// A clip pop was issued without a preceding clip.
    UnmatchedClipPop,
    /// Rendering ended with a state that was never restored.
    UnmatchedSave,
}

/// The human-readable description of a rendering error.
pub open spec fn render_error_text(e: RenderError) -> Seq<char> {
    match e {
        RenderError::NonFiniteGeometry => "renderer received non-finite or negative geometry"@,
        RenderError::InvalidScaleFactor => "render scale factor must be finite and positive"@,
        RenderError::SingularTransform => "renderer received a singular transform"@,
        RenderError::UnmatchedRestore => "display list restored an empty state stack"@,
        RenderError::UnmatchedClipPop => "display list popped an empty clip stack"@,
        RenderError::UnmatchedSave => "display list ended with an unbalanced save"@,
    }
}

impl RenderError {
    /// Returns a human-readable description of the error.
    pub fn describe(&self) -> (r: &'static str)
        ensures
            r@ == render_error_text(*self),
    {
        match self {
            RenderError::NonFiniteGeometry => "renderer received non-finite or negative geometry",
            RenderError::InvalidScaleFactor => "render scale factor must be finite and positive",
            RenderError::SingularTransform => "renderer received a singular transform",
            RenderError::UnmatchedRestore => "display list restored an empty state stack",
            RenderError::UnmatchedClipPop => "display list popped an empty clip stack",
            RenderError::UnmatchedSave => "display list ended with an unbalanced save",
        }
    }
}

/// How a display command acts on a renderer's state stack.
#[derive(Clone, Copy, Debug, PartialEq, Eq, Structural)]
pub enum StackCommand {
    /// Saves the current state, clips included.
    Save,
    /// Returns to the most recently saved state.
    Restore,
    /// Adds a clip to the current state.
    PushClip,
    /// Removes the most recent clip of the current state.
    PopClip,
    /// Draws or transforms without touching either stack.
    Draw,
}

/// The state stack after `command`, or the error it raises. A state is
/// modelled by the clip depth saved with each saved state and the current clip
/// depth.
pub open spec fn stack_step(s: (Seq<nat>, nat), command: StackCommand) -> Result<
    (Seq<nat>, nat),
    RenderError,
> {
    match command {
        StackCommand::Save => Ok((s.0.push(s.1), s.1)),
        StackCommand::Restore => if s.0.len() == 0 {
            Err(RenderError::UnmatchedRestore)
        } else {
            Ok((s.0.drop_last(), s.0.last()))
        },
        StackCommand::PushClip => Ok((s.0, s.1 + 1)),
        StackCommand::PopClip => if s.1 == 0 {
            Err(RenderError::UnmatchedClipPop)
        } else {
            Ok((s.0, (s.1 - 1) as nat))
        },
        StackCommand::Draw => Ok(s),
    }
}

/// A display list may end only when every saved state was restored.
pub open spec fn stack_end(saved: Seq<nat>) -> Result<(), RenderError> {
    if saved.len() == 0 {
        Ok(())
    } else {
        Err(RenderError::UnmatchedSave)
    }
}

/// The outcome of running `commands` from `s`: the first stack error, or the
/// stack left at the end.
pub open spec fn stack_run(s: (Seq<nat>, nat), commands: Seq<StackCommand>) -> Result<
    (Seq<nat>, nat),
    RenderError,
>
    decreases commands.len(),
{
    if commands.len() == 0 {
        Ok(s)
    } else {
        match stack_step(s, commands[0]) {
            Ok(next) => stack_run(next, commands.drop_first()),
            Err(e) => Err(e),
        }
    }
}

/// The stack discipline of a whole display list: the first unmatched restore
/// or clip pop, else an unmatched save, else success.
pub open spec fn stack_balance(commands: Seq<StackCommand>) -> Result<(), RenderError> {
    match stack_run((Seq::empty(), 0), commands) {
        Ok(s) => stack_end(s.0),
        Err(e) => Err(e),
    }
}

/// The depths of a renderer's saved states and clips while it walks a display
/// list. Each saved state remembers the clip depth it had.
pub struct StateStack {
    saved: Vec<usize>,
    clips: usize,
}

impl View for StateStack {
    type V = (Seq<nat>, nat);

    closed spec fn view(&self) -> (Seq<nat>, nat) {
        (self.saved@.map_values(|d: usize| d as nat), self.clips as nat)
    }
}

impl StateStack {
    /// An empty stack with no clips.
    pub fn new() -> (r: Self)
        ensures
            r@ == (Seq::<nat>::empty(), 0nat),
    {
        let r = StateStack { saved: Vec::new(), clips: 0 };
        assert(r@.0 =~= Seq::<nat>::empty());
        r
    }

    /// The number of clips in the current state.
    pub fn clip_depth(&self) -> (r: usize)
        ensures
            r == self@.1,
    {
        self.clips
    }

    /// The number of saved states.
    pub fn saved_depth(&self) -> (r: usize)
        ensures
            r == self@.0.len(),
    {
        self.saved.len()
    }

    /// Applies `command`. On an error the stack is left as it was.
    pub fn apply(&mut self, command: StackCommand) -> (r: Result<(), RenderError>)
        requires
            command == StackCommand::PushClip ==> old(self)@.1 < usize::MAX,
        ensures
            match stack_step(old(self)@, command) {
                Ok(s) => r is Ok && final(self)@ == s,
                Err(e) => r == Err::<(), RenderError>(e) && final(self)@ == old(self)@,
            },
    {
        let ghost before = self.saved@;
        match command {
            StackCommand::Save => {
                self.saved.push(self.clips);
                assert(self.saved@.map_values(|d: usize| d as nat) =~= before.map_values(
                    |d: usize| d as nat,
                ).push(self.clips as nat));
                Ok(())
            },
            StackCommand::Restore => match self.saved.pop() {
                Some(depth) => {
                    self.clips = depth;
                    assert(self.saved@.map_values(|d: usize| d as nat) =~= before.map_values(
                        |d: usize| d as nat,
                    ).drop_last());
                    Ok(())
                },
                None => Err(RenderError::UnmatchedRestore),
            },
            StackCommand::PushClip => {
                self.clips = self.clips + 1;
                Ok(())
            },
            StackCommand::PopClip => if self.clips == 0 {
                Err(RenderError::UnmatchedClipPop)
            } else {
                self.clips = self.clips - 1;
                Ok(())
            },
            StackCommand::Draw => Ok(()),
        }
    }

    /// Ends the display list: fails when a saved state was never restored.
    pub fn finish(&self) -> (r: Result<(), RenderError>)
        ensures
            r == stack_end(self@.0),
    {
        if self.saved.len() == 0 {
            Ok(())
        } else {
            Err(RenderError::UnmatchedSave)
        }
    }
}

/// Checks the stack discipline of a display list given by the stack effect of
/// each of its commands.
pub fn check_stack_balance(commands: &[StackCommand]) -> (r: Result<(), RenderError>)
    ensures
        r == stack_balance(commands@),
{
    let mut stack = StateStack::new();
    let mut i: usize = 0;
    assert(commands@.subrange(0, commands@.len() as int) =~= commands@);
    while i < commands.len()
        invariant
            i <= commands@.len(),
            stack@.1 <= i,
            forall|k: int| 0 <= k < stack@.0.len() ==> stack@.0[k] <= i,
            stack_run((Seq::empty(), 0), commands@) == stack_run(
                stack@,
                commands@.subrange(i as int, commands@.len() as int),
            ),
        decreases commands@.len() - i,
    {
        let command = commands[i];
        let ghost before = stack@;
        let step = stack.apply(command);
        assert(commands@.subrange(i as int, commands@.len() as int).drop_first() =~= commands@.subrange(
            i + 1,
            commands@.len() as int,
        ));
        match step {
            Ok(()) => {},
            Err(e) => {
                return Err(e);
            },
        }
        i = i + 1;
    }
    assert(commands@.subrange(i as int, commands@.len() as int) =~= Seq::<StackCommand>::empty());
    stack.finish()
}


/// Why the GPU renderer could not execute a display list.
#[derive(Clone, Copy, Debug, PartialEq, Eq, Structural)]
pub enum GpuRendererError {
    /// A coordinate, radius, width, or transform component was not finite.
    NonFiniteGeometry,
    /// A scale factor was not finite and positive.
    InvalidScaleFactor,
    /// A restore was issued without a preceding save.
    UnmatchedRestore,
    /// A clip pop was issued without a preceding clip.
    UnmatchedClipPop,
    /// Rendering ended with a state that was never restored.
    UnmatchedSave,
}

impl GpuRendererError {
    /// Returns a human-readable description of the error.
    pub fn describe(&self) -> (r: &'static str)
        ensures
            r@ == (match *self {
                GpuRendererError::NonFiniteGeometry => "renderer received non-finite or negative geometry"@,
                GpuRendererError::InvalidScaleFactor => "render scale factor must be finite and positive"@,
                GpuRendererError::UnmatchedRestore => "display list restored an empty state stack"@,
                GpuRendererError::UnmatchedClipPop => "display list popped an empty clip stack"@,
                GpuRendererError::UnmatchedSave => "display list ended with an unbalanced save"@,
            }),
    {
        match self {
            GpuRendererError::NonFiniteGeometry => "renderer received non-finite or negative geometry",
            GpuRendererError::InvalidScaleFactor => "render scale factor must be finite and positive",
            GpuRendererError::UnmatchedRestore => "display list restored an empty state stack",
            GpuRendererError::UnmatchedClipPop => "display list popped an empty clip stack",
            GpuRendererError::UnmatchedSave => "display list ended with an unbalanced save",
        }
    }
}

/// Result of attempting to present a frame.
#[derive(Clone, Copy, Debug, PartialEq, Eq, Structural)]
pub enum RenderStatus {
    /// The frame was queued and presented.
    Presented,
    /// The frame was presented but the surface should be reconfigured soon.
    Suboptimal,
    /// The surface needs reconfiguration before another frame can be drawn.
    Reconfigure,
    /// The OS or GPU skipped this frame without a fatal error.
    Skipped,
}

/// The application's requested action after it receives a window event.
#[derive(Clone, Copy, Debug, PartialEq, Eq, Structural)]
pub enum WindowAction {
    /// Keep processing native events without scheduling a frame.
    Continue,
    /// Ask the native window to issue a redraw event.
    RequestRedraw,
    /// Leave the native event loop.
    Exit,
}

impl Default for WindowAction {
    fn default() -> (r: Self)
        ensures
            r == WindowAction::Continue,
    {
        WindowAction::Continue
    }
}

/// Why a submitted frame could not be rendered.
#[derive(Clone, Copy, Debug, PartialEq, Eq, Structural)]
pub enum SoftwareRenderError {
    /// Allocating the requested target buffer failed.
    PixelBuffer(PixelBufferError),
    /// The display list could not be executed.
    Render(RenderError),
}

impl SoftwareRenderError {
    /// Returns a human-readable description of the error, including the
    /// description of its cause.
    pub fn describe(&self) -> (r: String)
        ensures
            r@ == match *self {
                SoftwareRenderError::PixelBuffer(e) => "could not allocate render target: "@
                    + "pixel buffer dimensions are too large"@,
                SoftwareRenderError::Render(e) => "could not render display list: "@
                    + render_error_text(e),
            },
    {
        match self {
            SoftwareRenderError::PixelBuffer(e) => {
                let mut text = String::from_str("could not allocate render target: ");
                text.append(e.describe());
                text
            },
            SoftwareRenderError::Render(e) => {
                let mut text = String::from_str("could not render display list: ");
                text.append(e.describe());
                text
            },
        }
    }
}

/// Why a render worker could not accept a frame.
#[derive(Clone, Copy, Debug, PartialEq, Eq, Structural)]
pub enum SubmitError {
    /// The worker is rendering a frame and one newer frame is already queued.
    QueueFull,
    /// The worker has stopped and cannot accept more work.
    Stopped,
}

impl SubmitError {
    /// Returns a human-readable description of the error.
    pub fn describe(&self) -> (r: &'static str)
        ensures
            r@ == (match *self {
                SubmitError::QueueFull => "software render queue is full"@,
                SubmitError::Stopped => "software render worker has stopped"@,
            }),
    {
        match self {
            SubmitError::QueueFull => "software render queue is full",
            SubmitError::Stopped => "software render worker has stopped",
        }
    }
}

/// A failure to receive a completed frame from a render worker.
#[derive(Clone, Copy, Debug, PartialEq, Eq, Structural)]
pub enum ReceiveError {
    /// The worker stopped before it could return another frame.
    Stopped,
}

impl ReceiveError {
    /// Returns a human-readable description of the error.
    pub fn describe(&self) -> (r: &'static str)
        ensures
            r@ == "software render worker has stopped"@,
    {
        "software render worker has stopped"
    }
}

/// A completed frame returned by a render worker.
#[derive(Debug)]
pub struct SoftwareRenderResult {
    frame_id: u64,
    result: Result<PixelBuffer, SoftwareRenderError>,
}

impl SoftwareRenderResult {
    /// Pairs a caller-supplied frame identifier with the outcome of rendering it.
    pub fn new(frame_id: u64, result: Result<PixelBuffer, SoftwareRenderError>) -> (r: Self)
        ensures
            r.spec_frame_id() == frame_id,
            r.spec_result() == result,
    {
        SoftwareRenderResult { frame_id, result }
    }

    /// The identifier of the completed frame.
    pub closed spec fn spec_frame_id(&self) -> u64 {
        self.frame_id
    }

    /// The outcome of rendering the frame.
    pub closed spec fn spec_result(&self) -> Result<PixelBuffer, SoftwareRenderError> {
        self.result
    }

    /// Returns the caller-supplied identifier of the completed frame.
    pub fn frame_id(&self) -> (r: u64)
        ensures
            r == self.spec_frame_id(),
    {
        self.frame_id
    }

    /// Returns the rendered pixels or the error that prevented rendering them.
    pub fn into_result(self) -> (r: Result<PixelBuffer, SoftwareRenderError>)
        ensures
            r == self.spec_result(),
    {
        self.result
    }
}

/// A font parsing failure.
#[derive(Clone, Copy, Debug, PartialEq, Eq)]
pub struct FontError(&'static str);

impl FontError {
    /// Creates a font error with the parser's reason.
    pub fn new(reason: &'static str) -> (r: Self)
        ensures
            r.spec_reason() == reason,
    {
        FontError(reason)
    }

    /// The parser's reason.
    pub closed spec fn spec_reason(&self) -> &'static str {
        self.0
    }

    /// Returns the parser's reason.
    pub fn reason(&self) -> (r: &'static str)
        ensures
            r == self.spec_reason(),
    {
        self.0
    }

    /// Returns a human-readable description of the error.
    pub fn describe(&self) -> (r: String)
        ensures
            r@ == "could not parse font: "@ + self.spec_reason()@,
    {
        let mut text = String::from_str("could not parse font: ");
        text.append(self.0);
        text
    }
}

/// A rasterized glyph's alpha coverage, arranged in row-major order.
#[derive(Debug, PartialEq, Eq)]
pub struct GlyphBitmap {
    width: usize,
    height: usize,
    coverage: Vec<u8>,
}

impl View for GlyphBitmap {
    type V = (nat, nat, Seq<u8>);

    closed spec fn view(&self) -> (nat, nat, Seq<u8>) {
        (self.width as nat, self.height as nat, self.coverage@)
    }
}

impl GlyphBitmap {
    /// Creates a bitmap from its dimensions and row-major coverage.
    pub fn new(width: usize, height: usize, coverage: Vec<u8>) -> (r: Self)
        ensures
            r@ == (width as nat, height as nat, coverage@),
    {
        GlyphBitmap { width, height, coverage }
    }

    /// Returns the bitmap width in pixels.
    pub fn width(&self) -> (r: usize)
        ensures
            r == self@.0,
    {
        self.width
    }

    /// Returns the bitmap height in pixels.
    pub fn height(&self) -> (r: usize)
        ensures
            r == self@.1,
    {
        self.height
    }

    /// Returns row-major 8-bit glyph coverage, from transparent to opaque.
    pub fn coverage(&self) -> (r: &[u8])
        ensures
            r@ == self@.2,
    {
        self.coverage.as_slice()
    }
}

/// An integer scissor rectangle in physical target pixels.
#[derive(Clone, Copy, Debug, PartialEq, Eq, Structural)]
pub struct Scissor {
    /// Left edge.
    pub x: u32,
    /// Top edge.
    pub y: u32,
    /// Width.
    pub width: u32,
    /// Height.
    pub height: u32,
}

/// The edge just past `start + extent`, saturated at the largest `u32`.
pub open spec fn far_edge(start: u32, extent: u32) -> u32 {
    if start + extent > u32::MAX {
        u32::MAX
    } else {
        (start + extent) as u32
    }
}

/// The larger of two values.
pub open spec fn larger(a: u32, b: u32) -> u32 {
    if a >= b {
        a
    } else {
        b
    }
}

/// The smaller of two values.
pub open spec fn smaller(a: u32, b: u32) -> u32 {
    if a <= b {
        a
    } else {
        b
    }
}

/// `a - b`, or zero when `b` exceeds `a`.
pub open spec fn shortfall(a: u32, b: u32) -> u32 {
    if a >= b {
        (a - b) as u32
    } else {
        0
    }
}

/// The intersection of two scissor rectangles; an empty intersection has a
/// zero extent.
pub open spec fn intersection(a: Scissor, b: Scissor) -> Scissor {
    let left = larger(a.x, b.x);
    let top = larger(a.y, b.y);
    let right = smaller(far_edge(a.x, a.width), far_edge(b.x, b.width));
    let bottom = smaller(far_edge(a.y, a.height), far_edge(b.y, b.height));
    Scissor { x: left, y: top, width: shortfall(right, left), height: shortfall(bottom, top) }
}

impl Scissor {
    /// The scissor spanning pixel edges `left..right` and `top..bottom`; an
    /// edge pair out of order gives a zero extent.
    pub fn from_edges(left: u32, top: u32, right: u32, bottom: u32) -> (r: Self)
        ensures
            r == (Scissor {
                x: left,
                y: top,
                width: shortfall(right, left),
                height: shortfall(bottom, top),
            }),
    {
        Scissor {
            x: left,
            y: top,
            width: right.saturating_sub(left),
            height: bottom.saturating_sub(top),
        }
    }

    /// A scissor covering a whole `width` by `height` target.
    pub fn full(width: u32, height: u32) -> (r: Self)
        ensures
            r == (Scissor { x: 0, y: 0, width, height }),
    {
        Scissor { x: 0, y: 0, width, height }
    }

    /// Returns the part of this scissor that also lies in `other`.
    pub fn intersect(self, other: Self) -> (r: Self)
        ensures
            r == intersection(self, other),
    {
        let left = if self.x >= other.x {
            self.x
        } else {
            other.x
        };
        let top = if self.y >= other.y {
            self.y
        } else {
            other.y
        };
        let a = self.x.saturating_add(self.width);
        let b = other.x.saturating_add(other.width);
        let right = if a <= b {
            a
        } else {
            b
        };
        let c = self.y.saturating_add(self.height);
        let d = other.y.saturating_add(other.height);
        let bottom = if c <= d {
            c
        } else {
            d
        };
        Scissor {
            x: left,
            y: top,
            width: right.saturating_sub(left),
            height: bottom.saturating_sub(top),
        }
    }
}

/// Intersection does not depend on the order of its operands, the result
/// lies within both operands, and intersecting with itself changes nothing
/// for a scissor whose far edges do not saturate.
pub proof fn law_scissor_intersection(a: Scissor, b: Scissor)
    ensures
        intersection(a, b) == intersection(b, a),
        intersection(a, b).x >= a.x && intersection(a, b).x >= b.x,
        intersection(a, b).y >= a.y && intersection(a, b).y >= b.y,
        far_edge(intersection(a, b).x, intersection(a, b).width) <= larger(
            far_edge(a.x, a.width),
            intersection(a, b).x,
        ),
        far_edge(intersection(a, b).x, intersection(a, b).width) <= larger(
            far_edge(b.x, b.width),
            intersection(a, b).x,
        ),
        a.x + a.width <= u32::MAX && a.y + a.height <= u32::MAX ==> intersection(a, a) == a,
{
}

} // verus!
