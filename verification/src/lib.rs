//! Verified core of the Torn UI toolkit: widget identities and input data,
//! diagnostics, the persistent docking workspace model, pixel buffers and
//! their PNG encoding, and the plain data types of the runtime, widgets, and
//! renderers.

pub mod binary32;
pub mod button;
pub mod diagnostic;
pub mod dock_ids;
pub mod dock_projection;
pub mod dock_tree;
pub mod geometry;
pub mod id;
pub mod input;
pub mod pixel_buffer;
pub mod png;
pub mod presenter;
pub mod render;
pub mod runtime;
pub mod text;
pub mod ui;
pub mod workspace;
pub mod workspace_laws;

pub use button::{ButtonBackground, ButtonInput, ButtonInteraction, ButtonResponse};
pub use diagnostic::{Diagnostic, DiagnosticReporter, DiagnosticSeverity};
pub use dock_ids::{DockAxis, DocumentId, DocumentPresentation, PanelId, SplitPlacement};
pub use dock_projection::{project_dock, DockRegion, Placement, ProjectedTab};
pub use dock_tree::LayoutNode;
pub use geometry::{ConstraintError, SizeError};
pub use id::WidgetId;
pub use input::{
    FocusChanged, Key, KeyCode, KeyEvent, Modifiers, NamedKey, PointerButton, PointerButtons,
    PointerId,
};
pub use pixel_buffer::{copy_last_completed_frame, Pixel, PixelBuffer, PixelBufferError};
pub use presenter::{keep_completed_frame, FramePacer};
pub use png::PngError;
pub use render::{
    check_stack_balance, FontError, GlyphBitmap, GpuRendererError, ReceiveError, RenderError,
    RenderStatus, Scissor, StackCommand, StateStack,
    SoftwareRenderError, SoftwareRenderResult, SubmitError, WindowAction,
};
pub use runtime::{
    children_in_order, delivery_order, tab_focus_target, EventEffects, EventPhase, FocusRequest,
    PointerTargets, UiRuntime, MAX_RETAINED_DIAGNOSTICS,
};
pub use ui::{
    merge_status, overscan_rows, register_item, Align, Alignment, ColorRole, Column, DarkTheme, DirtyFlags, DockAreaError,
    DockItem, EventStatus, KeyChord, LightTheme, Rgba8, Row, ScrollAxis, SplitAxis, Stack,
    SystemAppearance, SystemTheme, UiRuntimeError,
};
pub use text::{normalize_line_breaks, prepare_text, FontFace};
pub use workspace::{
    FloatingDocument, FloatingPanel, WorkspaceBounds, WorkspaceError, WorkspaceLayout,
    WORKSPACE_LAYOUT_VERSION,
};
