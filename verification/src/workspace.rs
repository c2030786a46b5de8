//! Persistent, widget-independent docking and document workspace layouts.
//!
//! Applications own their panel factories and configuration files. This
//! module owns only placement data and validates every mutation before it
//! replaces the current layout.

use vstd::prelude::*;

use crate::binary32::{bits_are_at_least_zero, bits_are_finite, is_at_least_zero, is_finite, is_normalized_ratio};
use crate::dock_ids::{
    document_texts, lemma_map_push, lemma_map_remove, lemma_remove_value_absent,
    lemma_remove_value_at, panel_texts, DocumentId, PanelId,
};
use crate::dock_tree::{
    activate_document_in_node, activate_panel_in_node, activated_document, activated_panel,
    detach_document, detach_panel_from_node, detached, insert_document, normalize_node,
    normalized, resize_split_in_node, resized, split_at, split_at_panel, tab_with,
    tab_with_panel, with_document, without_document, LayoutNode, NodeView,
};
use crate::dock_ids::{take_id, DockAxis, SplitPlacement};

verus! {

/// The first supported on-disk workspace-layout format.
pub const WORKSPACE_LAYOUT_VERSION: u32 = 1;

/// A logical-pixel rectangle used by a floating workspace item.
///
/// Each coordinate is held as its binary32 encoding (`f32::to_bits`).
#[derive(Clone, Copy, Debug, PartialEq, Eq, Structural)]
pub struct WorkspaceBounds {
    x: u32,
    y: u32,
    width: u32,
    height: u32,
}

impl View for WorkspaceBounds {
    type V = (u32, u32, u32, u32);

    closed spec fn view(&self) -> (u32, u32, u32, u32) {
        (self.x, self.y, self.width, self.height)
    }
}

/// Bounds are valid when every value is finite and both extents compare
/// greater than or equal to zero.
pub open spec fn bounds_valid(b: (u32, u32, u32, u32)) -> bool {
    &&& is_finite(b.0)
    &&& is_finite(b.1)
    &&& is_finite(b.2)
    &&& is_finite(b.3)
    &&& is_at_least_zero(b.2)
    &&& is_at_least_zero(b.3)
}

impl WorkspaceBounds {
    /// Creates finite bounds with non-negative dimensions from binary32
    /// encodings.
    ///
    /// Returns [`WorkspaceError::InvalidBounds`] if a coordinate is non-finite
    /// or a dimension is negative or non-finite.
    pub fn new(x: u32, y: u32, width: u32, height: u32) -> (r: Result<Self, WorkspaceError>)
        ensures
            bounds_valid((x, y, width, height)) ==> (r matches Ok(b) && b@ == (x, y, width, height)),
            !bounds_valid((x, y, width, height)) ==> r == Err::<Self, WorkspaceError>(
                WorkspaceError::InvalidBounds,
            ),
    {
        let bounds = WorkspaceBounds { x, y, width, height };
        match bounds.ensure_valid() {
            Ok(()) => Ok(bounds),
            Err(e) => Err(e),
        }
    }

    /// Assembles bounds from binary32 encodings without checking them, for
    /// decoders; a layout holding them is checked when it is validated.
    pub fn from_parts(x: u32, y: u32, width: u32, height: u32) -> (r: Self)
        ensures
            r@ == (x, y, width, height),
    {
        WorkspaceBounds { x, y, width, height }
    }

    /// Returns the encoded logical x coordinate.
    pub fn x(self) -> (r: u32)
        ensures
            r == self@.0,
    {
        self.x
    }

    /// Returns the encoded logical y coordinate.
    pub fn y(self) -> (r: u32)
        ensures
            r == self@.1,
    {
        self.y
    }

    /// Returns the encoded logical width.
    pub fn width(self) -> (r: u32)
        ensures
            r == self@.2,
    {
        self.width
    }

    /// Returns the encoded logical height.
    pub fn height(self) -> (r: u32)
        ensures
            r == self@.3,
    {
        self.height
    }

    fn ensure_valid(self) -> (r: Result<(), WorkspaceError>)
        ensures
            bounds_valid(self@) ==> r is Ok,
            !bounds_valid(self@) ==> r == Err::<(), WorkspaceError>(WorkspaceError::InvalidBounds),
    {
        if bits_are_finite(self.x) && bits_are_finite(self.y) && bits_are_finite(self.width)
            && bits_are_finite(self.height) && bits_are_at_least_zero(self.width)
            && bits_are_at_least_zero(self.height) {
            Ok(())
        } else {
            Err(WorkspaceError::InvalidBounds)
        }
    }
}

/// A floating panel that is not represented in the docked tree.
#[derive(Debug, PartialEq)]
pub struct FloatingPanel {
    /// Stable panel identifier.
    pub id: PanelId,
    /// Bounds in logical pixels.
    pub bounds: WorkspaceBounds,
    /// Whether the floating window is currently visible.
    pub visible: bool,
    /// Relative stacking order among floating panels.
    pub z_order: u32,
}

/// A free-form document child window outside the docked tree.
#[derive(Debug, PartialEq)]
pub struct FloatingDocument {
    /// Stable document identifier.
    pub id: DocumentId,
    /// Bounds in logical pixels.
    pub bounds: WorkspaceBounds,
    /// Whether the document child window is currently visible.
    pub visible: bool,
    /// Relative stacking order among free-form documents.
    pub z_order: u32,
}

/// The model of a floating panel or free-form document.
#[verifier::ext_equal]
pub struct WindowView {
    /// Identifier text.
    pub id: Seq<char>,
    /// Encoded bounds.
    pub bounds: (u32, u32, u32, u32),
    /// Visibility.
    pub visible: bool,
    /// Stacking order.
    pub z_order: u32,
}

impl View for FloatingPanel {
    type V = WindowView;

    open spec fn view(&self) -> WindowView {
        WindowView {
            id: self.id@,
            bounds: self.bounds@,
            visible: self.visible,
            z_order: self.z_order,
        }
    }
}

impl View for FloatingDocument {
    type V = WindowView;

    open spec fn view(&self) -> WindowView {
        WindowView {
            id: self.id@,
            bounds: self.bounds@,
            visible: self.visible,
            z_order: self.z_order,
        }
    }
}

impl Clone for FloatingPanel {
    fn clone(&self) -> (r: Self)
        ensures
            r == *self,
    {
        FloatingPanel {
            id: self.id.clone(),
            bounds: self.bounds,
            visible: self.visible,
            z_order: self.z_order,
        }
    }
}

impl Clone for FloatingDocument {
    fn clone(&self) -> (r: Self)
        ensures
            r == *self,
    {
        FloatingDocument {
            id: self.id.clone(),
            bounds: self.bounds,
            visible: self.visible,
            z_order: self.z_order,
        }
    }
}

/// The models of a sequence of floating panels.
pub open spec fn panel_windows(items: Seq<FloatingPanel>) -> Seq<WindowView> {
    items.map_values(|item: FloatingPanel| item@)
}

/// The models of a sequence of free-form documents.
pub open spec fn document_windows(items: Seq<FloatingDocument>) -> Seq<WindowView> {
    items.map_values(|item: FloatingDocument| item@)
}

/// The identifier texts of a sequence of windows.
pub open spec fn window_ids(items: Seq<WindowView>) -> Seq<Seq<char>> {
    items.map_values(|item: WindowView| item.id)
}

/// The stacking orders of a sequence of windows.
pub open spec fn window_z_orders(items: Seq<WindowView>) -> Seq<u32> {
    items.map_values(|item: WindowView| item.z_order)
}

/// Why a workspace operation or validation failed.
#[derive(Debug, PartialEq)]
pub enum WorkspaceError {
    /// A panel ID occurs in more than one workspace location.
    DuplicatePanel(PanelId),
    /// A document ID occurs in more than one workspace location.
    DuplicateDocument(DocumentId),
    /// A dock operation referred to a panel that is not in the docked tree.
    PanelNotFound(PanelId),
    /// A show operation referred to a panel that is not hidden.
    PanelNotHidden(PanelId),
    /// A document operation referred to an unknown document.
    DocumentNotFound(DocumentId),
    /// The layout has no central document area.
    DocumentsAreaNotFound,
    /// The layout contains more than one central document area.
    MultipleDocumentAreas,
    /// A split ratio is not finite or is outside the normalized range.
    InvalidSplitRatio,
    /// A floating item's bounds are not finite or have a negative extent.
    InvalidBounds,
    /// A move attempted to use the same panel as both source and target.
    SameSourceAndTarget,
    /// The input uses an on-disk format newer than this crate supports.
    UnsupportedVersion(u32),
    /// An older format has no migration registered by this crate version.
    MigrationRequired(u32),
}

/// The model of a [`WorkspaceError`]: identifiers are their texts.
pub enum WorkspaceErrorView {
    DuplicatePanel(Seq<char>),
    DuplicateDocument(Seq<char>),
    PanelNotFound(Seq<char>),
    PanelNotHidden(Seq<char>),
    DocumentNotFound(Seq<char>),
    DocumentsAreaNotFound,
    MultipleDocumentAreas,
    InvalidSplitRatio,
    InvalidBounds,
    SameSourceAndTarget,
    UnsupportedVersion(u32),
    MigrationRequired(u32),
}

impl View for WorkspaceError {
    type V = WorkspaceErrorView;

    open spec fn view(&self) -> WorkspaceErrorView {
        match self {
            WorkspaceError::DuplicatePanel(id) => WorkspaceErrorView::DuplicatePanel(id@),
            WorkspaceError::DuplicateDocument(id) => WorkspaceErrorView::DuplicateDocument(id@),
            WorkspaceError::PanelNotFound(id) => WorkspaceErrorView::PanelNotFound(id@),
            WorkspaceError::PanelNotHidden(id) => WorkspaceErrorView::PanelNotHidden(id@),
            WorkspaceError::DocumentNotFound(id) => WorkspaceErrorView::DocumentNotFound(id@),
            WorkspaceError::DocumentsAreaNotFound => WorkspaceErrorView::DocumentsAreaNotFound,
            WorkspaceError::MultipleDocumentAreas => WorkspaceErrorView::MultipleDocumentAreas,
            WorkspaceError::InvalidSplitRatio => WorkspaceErrorView::InvalidSplitRatio,
            WorkspaceError::InvalidBounds => WorkspaceErrorView::InvalidBounds,
            WorkspaceError::SameSourceAndTarget => WorkspaceErrorView::SameSourceAndTarget,
            WorkspaceError::UnsupportedVersion(v) => WorkspaceErrorView::UnsupportedVersion(*v),
            WorkspaceError::MigrationRequired(v) => WorkspaceErrorView::MigrationRequired(*v),
        }
    }
}

impl Clone for WorkspaceError {
    fn clone(&self) -> (r: Self)
        ensures
            r == *self,
    {
        match self {
            WorkspaceError::DuplicatePanel(id) => WorkspaceError::DuplicatePanel(id.clone()),
            WorkspaceError::DuplicateDocument(id) => WorkspaceError::DuplicateDocument(id.clone()),
            WorkspaceError::PanelNotFound(id) => WorkspaceError::PanelNotFound(id.clone()),
            WorkspaceError::PanelNotHidden(id) => WorkspaceError::PanelNotHidden(id.clone()),
            WorkspaceError::DocumentNotFound(id) => WorkspaceError::DocumentNotFound(id.clone()),
            WorkspaceError::DocumentsAreaNotFound => WorkspaceError::DocumentsAreaNotFound,
            WorkspaceError::MultipleDocumentAreas => WorkspaceError::MultipleDocumentAreas,
            WorkspaceError::InvalidSplitRatio => WorkspaceError::InvalidSplitRatio,
            WorkspaceError::InvalidBounds => WorkspaceError::InvalidBounds,
            WorkspaceError::SameSourceAndTarget => WorkspaceError::SameSourceAndTarget,
            WorkspaceError::UnsupportedVersion(v) => WorkspaceError::UnsupportedVersion(*v),
            WorkspaceError::MigrationRequired(v) => WorkspaceError::MigrationRequired(*v),
        }
    }
}

/// The decimal digits of `n`, most significant first.
pub open spec fn decimal(n: nat) -> Seq<char>
    decreases n,
{
    if n < 10 {
        seq![digit(n)]
    } else {
        decimal(n / 10).push(digit(n % 10))
    }
}

/// The decimal digit character for `d`, which is below ten.
pub open spec fn digit(d: nat) -> char {
    if d == 0 {
        '0'
    } else if d == 1 {
        '1'
    } else if d == 2 {
        '2'
    } else if d == 3 {
        '3'
    } else if d == 4 {
        '4'
    } else if d == 5 {
        '5'
    } else if d == 6 {
        '6'
    } else if d == 7 {
        '7'
    } else if d == 8 {
        '8'
    } else {
        '9'
    }
}

/// The human-readable description of an error.
pub open spec fn error_text(e: WorkspaceErrorView) -> Seq<char> {
    match e {
        WorkspaceErrorView::DuplicatePanel(id) => "panel `"@ + id + "` appears more than once"@,
        WorkspaceErrorView::DuplicateDocument(id) => "document `"@ + id
            + "` appears more than once"@,
        WorkspaceErrorView::PanelNotFound(id) => "panel `"@ + id + "` was not found"@,
        WorkspaceErrorView::PanelNotHidden(id) => "panel `"@ + id + "` is not hidden"@,
        WorkspaceErrorView::DocumentNotFound(id) => "document `"@ + id + "` was not found"@,
        WorkspaceErrorView::DocumentsAreaNotFound => "layout has no document area"@,
        WorkspaceErrorView::MultipleDocumentAreas => "layout has more than one document area"@,
        WorkspaceErrorView::InvalidSplitRatio => "split ratio must be finite and normalized"@,
        WorkspaceErrorView::InvalidBounds => "floating bounds must be finite and non-negative"@,
        WorkspaceErrorView::SameSourceAndTarget => "source panel and target panel must differ"@,
        WorkspaceErrorView::UnsupportedVersion(v) => "workspace format version "@ + decimal(
            v as nat,
        ) + " is newer than supported"@,
        WorkspaceErrorView::MigrationRequired(v) => "workspace format version "@ + decimal(
            v as nat,
        ) + " requires a migration"@,
    }
}

/// Appends the decimal digits of `n` to `text`.
fn append_decimal(text: &mut String, n: u32)
    ensures
        final(text)@ == old(text)@ + decimal(n as nat),
    decreases n,
{
    if n >= 10 {
        append_decimal(text, n / 10);
    }
    let d = (n % 10) as usize;
    let digits = "0123456789";
    proof {
        reveal_strlit("0123456789");
    }
    let one = digits.substring_char(d, d + 1);
    proof {
        assert(one@ =~= seq![digit(d as nat)]);
    }
    let ghost mid = text@;
    text.append(one);
    proof {
        if n >= 10 {
            assert(old(text)@ + decimal(n as nat) =~= mid + seq![digit(d as nat)]);
        } else {
            assert(old(text)@ + decimal(n as nat) =~= mid + seq![digit(d as nat)]);
        }
    }
}

impl WorkspaceError {
    /// Returns a human-readable description of the error.
    pub fn describe(&self) -> (r: String)
        ensures
            r@ == error_text(self@),
    {
        proof {
            reveal_strlit("panel `");
            reveal_strlit("document `");
        }
        match self {
            WorkspaceError::DuplicatePanel(id) => format_id("panel `", id.as_str(), "` appears more than once"),
            WorkspaceError::DuplicateDocument(id) => format_id("document `", id.as_str(), "` appears more than once"),
            WorkspaceError::PanelNotFound(id) => format_id("panel `", id.as_str(), "` was not found"),
            WorkspaceError::PanelNotHidden(id) => format_id("panel `", id.as_str(), "` is not hidden"),
            WorkspaceError::DocumentNotFound(id) => format_id("document `", id.as_str(), "` was not found"),
            WorkspaceError::DocumentsAreaNotFound => String::from_str("layout has no document area"),
            WorkspaceError::MultipleDocumentAreas => String::from_str("layout has more than one document area"),
            WorkspaceError::InvalidSplitRatio => String::from_str("split ratio must be finite and normalized"),
            WorkspaceError::InvalidBounds => String::from_str("floating bounds must be finite and non-negative"),
            WorkspaceError::SameSourceAndTarget => String::from_str("source panel and target panel must differ"),
            WorkspaceError::UnsupportedVersion(v) => format_version(*v, " is newer than supported"),
            WorkspaceError::MigrationRequired(v) => format_version(*v, " requires a migration"),
        }
    }
}

fn format_id(prefix: &str, id: &str, suffix: &str) -> (r: String)
    ensures
        r@ == prefix@ + id@ + suffix@,
{
    let mut s = String::from_str(prefix);
    s.append(id);
    s.append(suffix);
    s
}

fn format_version(version: u32, suffix: &str) -> (r: String)
    ensures
        r@ == "workspace format version "@ + decimal(version as nat) + suffix@,
{
    let mut s = String::from_str("workspace format version ");
    append_decimal(&mut s, version);
    s.append(suffix);
    s
}


/// Admits `ids` one by one into the list of identifiers seen so far, failing
/// at the first identifier that was already seen.
pub open spec fn admit_ids(ids: Seq<Seq<char>>, seen: Seq<Seq<char>>) -> Result<
    Seq<Seq<char>>,
    Seq<char>,
>
    decreases ids.len(),
{
    if ids.len() == 0 {
        Ok(seen)
    } else if seen.contains(ids[0]) {
        Err(ids[0])
    } else {
        admit_ids(ids.drop_first(), seen.push(ids[0]))
    }
}

/// Checks `node` in depth-first, first-branch-first order against the panel
/// and document identifiers seen so far. A split ratio is checked before its
/// branches, a selection before its items.
pub open spec fn check_node(node: NodeView, panels: Seq<Seq<char>>, documents: Seq<Seq<char>>) -> Result<
    (Seq<Seq<char>>, Seq<Seq<char>>),
    WorkspaceErrorView,
>
    decreases node,
{
    match node {
        NodeView::Split { ratio, first, second, .. } => if !is_normalized_ratio(ratio) {
            Err(WorkspaceErrorView::InvalidSplitRatio)
        } else {
            match check_node(*first, panels, documents) {
                Ok(state) => check_node(*second, state.0, state.1),
                Err(e) => Err(e),
            }
        },
        NodeView::Tabs { items, active } => if active is Some && !items.contains(active->0) {
            Err(WorkspaceErrorView::PanelNotFound(active->0))
        } else {
            match admit_ids(items, panels) {
                Ok(p) => Ok((p, documents)),
                Err(id) => Err(WorkspaceErrorView::DuplicatePanel(id)),
            }
        },
        NodeView::Panel { id } => if panels.contains(id) {
            Err(WorkspaceErrorView::DuplicatePanel(id))
        } else {
            Ok((panels.push(id), documents))
        },
        NodeView::Documents { items, active, .. } => if active is Some && !items.contains(
            active->0,
        ) {
            Err(WorkspaceErrorView::DocumentNotFound(active->0))
        } else {
            match admit_ids(items, documents) {
                Ok(d) => Ok((panels, d)),
                Err(id) => Err(WorkspaceErrorView::DuplicateDocument(id)),
            }
        },
        NodeView::Empty => Ok((panels, documents)),
    }
}

/// The number of document areas in `node`.
pub open spec fn document_areas(node: NodeView) -> nat
    decreases node,
{
    match node {
        NodeView::Split { first, second, .. } => document_areas(*first) + document_areas(*second),
        NodeView::Documents { .. } => 1,
        _ => 0,
    }
}

/// Admits floating windows one by one: each must have valid bounds and an
/// identifier that was not seen yet.
pub open spec fn admit_windows(items: Seq<WindowView>, seen: Seq<Seq<char>>, documents: bool) -> Result<
    Seq<Seq<char>>,
    WorkspaceErrorView,
>
    decreases items.len(),
{
    if items.len() == 0 {
        Ok(seen)
    } else if !bounds_valid(items[0].bounds) {
        Err(WorkspaceErrorView::InvalidBounds)
    } else if seen.contains(items[0].id) {
        Err(
            if documents {
                WorkspaceErrorView::DuplicateDocument(items[0].id)
            } else {
                WorkspaceErrorView::DuplicatePanel(items[0].id)
            },
        )
    } else {
        admit_windows(items.drop_first(), seen.push(items[0].id), documents)
    }
}

fn admit_panel(seen: &mut Vec<PanelId>, id: &PanelId) -> (r: Result<(), WorkspaceError>)
    ensures
        panel_texts(old(seen)@).contains(id@) ==> r == Err::<(), WorkspaceError>(
            WorkspaceError::DuplicatePanel(*id),
        ),
        !panel_texts(old(seen)@).contains(id@) ==> r is Ok && panel_texts(final(seen)@)
            == panel_texts(old(seen)@).push(id@),
{
    if crate::dock_ids::contains_panel_id(seen, id) {
        return Err(WorkspaceError::DuplicatePanel(id.clone()));
    }
    let ghost before = seen@;
    seen.push(id.clone());
    proof {
        lemma_map_push(before, |p: PanelId| p@, *id);
    }
    Ok(())
}

fn admit_document(seen: &mut Vec<DocumentId>, id: &DocumentId) -> (r: Result<(), WorkspaceError>)
    ensures
        document_texts(old(seen)@).contains(id@) ==> r == Err::<(), WorkspaceError>(
            WorkspaceError::DuplicateDocument(*id),
        ),
        !document_texts(old(seen)@).contains(id@) ==> r is Ok && document_texts(final(seen)@)
            == document_texts(old(seen)@).push(id@),
{
    if crate::dock_ids::contains_document_id(seen, id) {
        return Err(WorkspaceError::DuplicateDocument(id.clone()));
    }
    let ghost before = seen@;
    seen.push(id.clone());
    proof {
        lemma_map_push(before, |p: DocumentId| p@, *id);
    }
    Ok(())
}

proof fn lemma_admit_step(ids: Seq<Seq<char>>, i: int, seen: Seq<Seq<char>>)
    requires
        0 <= i < ids.len(),
        !seen.contains(ids[i]),
    ensures
        admit_ids(ids.subrange(i, ids.len() as int), seen) == admit_ids(
            ids.subrange(i + 1, ids.len() as int),
            seen.push(ids[i]),
        ),
{
    assert(ids.subrange(i, ids.len() as int).drop_first() =~= ids.subrange(i + 1, ids.len() as int));
}

proof fn lemma_admit_windows_step(items: Seq<WindowView>, i: int, seen: Seq<Seq<char>>, documents: bool)
    requires
        0 <= i < items.len(),
        bounds_valid(items[i].bounds),
        !seen.contains(items[i].id),
    ensures
        admit_windows(items.subrange(i, items.len() as int), seen, documents) == admit_windows(
            items.subrange(i + 1, items.len() as int),
            seen.push(items[i].id),
            documents,
        ),
{
    assert(items.subrange(i, items.len() as int).drop_first() =~= items.subrange(
        i + 1,
        items.len() as int,
    ));
}

/// Admits each panel identifier of `ids`, in order.
fn admit_panels(seen: &mut Vec<PanelId>, ids: &Vec<PanelId>) -> (r: Result<(), WorkspaceError>)
    ensures
        match admit_ids(panel_texts(ids@), panel_texts(old(seen)@)) {
            Ok(s) => r is Ok && panel_texts(final(seen)@) == s,
            Err(id) => r matches Err(e) && e@ == WorkspaceErrorView::DuplicatePanel(id),
        },
{
    let ghost texts = panel_texts(ids@);
    assert(texts.subrange(0, texts.len() as int) =~= texts);
    let mut i: usize = 0;
    while i < ids.len()
        invariant
            i <= ids.len(),
            texts == panel_texts(ids@),
            admit_ids(texts, panel_texts(old(seen)@)) == admit_ids(
                texts.subrange(i as int, texts.len() as int),
                panel_texts(seen@),
            ),
        decreases ids.len() - i,
    {
        let ghost current = panel_texts(seen@);
        match admit_panel(seen, &ids[i]) {
            Ok(()) => {
                proof {
                    lemma_admit_step(texts, i as int, current);
                }
            },
            Err(e) => {
                assert(texts.subrange(i as int, texts.len() as int)[0] == texts[i as int]);
                return Err(e);
            },
        }
        i = i + 1;
    }
    assert(texts.subrange(i as int, texts.len() as int).len() == 0);
    Ok(())
}

/// Admits each document identifier of `ids`, in order.
fn admit_documents(seen: &mut Vec<DocumentId>, ids: &Vec<DocumentId>) -> (r: Result<(), WorkspaceError>)
    ensures
        match admit_ids(document_texts(ids@), document_texts(old(seen)@)) {
            Ok(s) => r is Ok && document_texts(final(seen)@) == s,
            Err(id) => r matches Err(e) && e@ == WorkspaceErrorView::DuplicateDocument(id),
        },
{
    let ghost texts = document_texts(ids@);
    assert(texts.subrange(0, texts.len() as int) =~= texts);
    let mut i: usize = 0;
    while i < ids.len()
        invariant
            i <= ids.len(),
            texts == document_texts(ids@),
            admit_ids(texts, document_texts(old(seen)@)) == admit_ids(
                texts.subrange(i as int, texts.len() as int),
                document_texts(seen@),
            ),
        decreases ids.len() - i,
    {
        let ghost current = document_texts(seen@);
        match admit_document(seen, &ids[i]) {
            Ok(()) => {
                proof {
                    lemma_admit_step(texts, i as int, current);
                }
            },
            Err(e) => {
                assert(texts.subrange(i as int, texts.len() as int)[0] == texts[i as int]);
                return Err(e);
            },
        }
        i = i + 1;
    }
    assert(texts.subrange(i as int, texts.len() as int).len() == 0);
    Ok(())
}

/// The number of document areas, saturated at the largest `u32`.
pub open spec fn saturated(count: nat) -> u32 {
    if count >= u32::MAX {
        u32::MAX
    } else {
        count as u32
    }
}

/// Validates `node` in depth-first order against the identifiers seen so far
/// and counts its document areas into `areas`.
fn validate_node(
    node: &LayoutNode,
    panels: &mut Vec<PanelId>,
    documents: &mut Vec<DocumentId>,
    areas: &mut u32,
) -> (r: Result<(), WorkspaceError>)
    ensures
        match check_node(node@, panel_texts(old(panels)@), document_texts(old(documents)@)) {
            Ok(state) => r is Ok && panel_texts(final(panels)@) == state.0 && document_texts(
                final(documents)@,
            ) == state.1 && *final(areas) == saturated(*old(areas) as nat + document_areas(node@)),
            Err(e) => r matches Err(x) && x@ == e,
        },
    decreases node,
{
    match node {
        LayoutNode::Split { ratio, first, second, .. } => {
            if !(crate::binary32::RATIO_MIN_BITS <= *ratio && *ratio <= crate::binary32::RATIO_MAX_BITS) {
                return Err(WorkspaceError::InvalidSplitRatio);
            }
            match validate_node(first, panels, documents, areas) {
                Ok(()) => {},
                Err(e) => return Err(e),
            }
            validate_node(second, panels, documents, areas)
        },
        LayoutNode::Tabs { items, active } => {
            match active {
                Some(id) => {
                    if !crate::dock_ids::contains_panel_id(items, id) {
                        return Err(WorkspaceError::PanelNotFound(id.clone()));
                    }
                },
                None => {},
            }
            admit_panels(panels, items)
        },
        LayoutNode::Panel { id } => admit_panel(panels, id),
        LayoutNode::Documents { items, active, .. } => {
            match active {
                Some(id) => {
                    if !crate::dock_ids::contains_document_id(items, id) {
                        return Err(WorkspaceError::DocumentNotFound(id.clone()));
                    }
                },
                None => {},
            }
            match admit_documents(documents, items) {
                Ok(()) => {},
                Err(e) => return Err(e),
            }
            *areas = areas.saturating_add(1);
            Ok(())
        },
        LayoutNode::Empty => Ok(()),
    }
}


/// The highest stacking order in `zs`, or zero when `zs` is empty.
pub open spec fn highest_z(zs: Seq<u32>) -> u32
    decreases zs.len(),
{
    if zs.len() == 0 {
        0
    } else {
        let rest = highest_z(zs.drop_last());
        if zs.last() > rest {
            zs.last()
        } else {
            rest
        }
    }
}

/// The stacking order that raises an item above all of `zs`: one more than the
/// highest, saturating at the largest `u32`.
pub open spec fn next_z(zs: Seq<u32>) -> u32 {
    if highest_z(zs) == u32::MAX {
        u32::MAX
    } else {
        (highest_z(zs) + 1) as u32
    }
}

/// An item with a relative stacking order.
pub trait ZOrdered {
    /// The stacking order of this item.
    spec fn stacking(&self) -> u32;

    /// Returns the stacking order of this item.
    fn z_order(&self) -> (r: u32)
        ensures
            r == self.stacking(),
    ;
}

impl ZOrdered for FloatingPanel {
    open spec fn stacking(&self) -> u32 {
        self.z_order
    }

    fn z_order(&self) -> (r: u32) {
        self.z_order
    }
}

impl ZOrdered for FloatingDocument {
    open spec fn stacking(&self) -> u32 {
        self.z_order
    }

    fn z_order(&self) -> (r: u32) {
        self.z_order
    }
}

/// Returns the stacking order that raises a new item above all of `items`.
pub fn next_z_order<T: ZOrdered>(items: &Vec<T>) -> (r: u32)
    ensures
        r == next_z(items@.map_values(|item: T| item.stacking())),
{
    let ghost zs = items@.map_values(|item: T| item.stacking());
    let mut highest: u32 = 0;
    let mut i: usize = 0;
    assert(zs.subrange(0, 0).len() == 0);
    while i < items.len()
        invariant
            i <= items.len(),
            zs == items@.map_values(|item: T| item.stacking()),
            highest == highest_z(zs.subrange(0, i as int)),
        decreases items.len() - i,
    {
        let z = items[i].z_order();
        assert(zs.subrange(0, i + 1).drop_last() =~= zs.subrange(0, i as int));
        if z > highest {
            highest = z;
        }
        i = i + 1;
    }
    assert(zs.subrange(0, i as int) =~= zs);
    highest.saturating_add(1)
}

proof fn lemma_panel_z_orders(items: Seq<FloatingPanel>)
    ensures
        items.map_values(|item: FloatingPanel| item.stacking()) == window_z_orders(panel_windows(items)),
{
    assert(items.map_values(|item: FloatingPanel| item.stacking()) =~= window_z_orders(
        panel_windows(items),
    ));
}

proof fn lemma_document_z_orders(items: Seq<FloatingDocument>)
    ensures
        items.map_values(|item: FloatingDocument| item.stacking()) == window_z_orders(
            document_windows(items),
        ),
{
    assert(items.map_values(|item: FloatingDocument| item.stacking()) =~= window_z_orders(
        document_windows(items),
    ));
}

/// `items` without the first window whose identifier is `id`.
pub open spec fn without_window(items: Seq<WindowView>, id: Seq<char>) -> Seq<WindowView> {
    match window_ids(items).index_of_first(id) {
        Some(i) => items.remove(i),
        None => items,
    }
}

/// Removes the first floating panel with the identifier `target`, returning
/// whether one was found.
fn take_panel(items: &mut Vec<FloatingPanel>, target: &PanelId) -> (r: bool)
    ensures
        r == window_ids(panel_windows(old(items)@)).contains(target@),
        panel_windows(final(items)@) == without_window(panel_windows(old(items)@), target@),
{
    let ghost ids = window_ids(panel_windows(items@));
    let mut i: usize = 0;
    while i < items.len()
        invariant
            i <= items.len(),
            items@ == old(items)@,
            ids == window_ids(panel_windows(items@)),
            forall|j: int| 0 <= j < i ==> ids[j] != target@,
        decreases items.len() - i,
    {
        if items[i].id.same_as(target) {
            proof {
                lemma_remove_value_at(ids, target@, i as int);
                lemma_map_remove(items@, |item: FloatingPanel| item@, i as int);
            }
            items.remove(i);
            return true;
        }
        i = i + 1;
    }
    proof {
        assert(!ids.contains(target@));
        lemma_remove_value_absent(ids, target@);
    }
    false
}

/// Removes the first free-form document with the identifier `target`,
/// returning whether one was found.
fn take_document(items: &mut Vec<FloatingDocument>, target: &DocumentId) -> (r: bool)
    ensures
        r == window_ids(document_windows(old(items)@)).contains(target@),
        document_windows(final(items)@) == without_window(
            document_windows(old(items)@),
            target@,
        ),
{
    let ghost ids = window_ids(document_windows(items@));
    let mut i: usize = 0;
    while i < items.len()
        invariant
            i <= items.len(),
            items@ == old(items)@,
            ids == window_ids(document_windows(items@)),
            forall|j: int| 0 <= j < i ==> ids[j] != target@,
        decreases items.len() - i,
    {
        if items[i].id.same_as(target) {
            proof {
                lemma_remove_value_at(ids, target@, i as int);
                lemma_map_remove(items@, |item: FloatingDocument| item@, i as int);
            }
            items.remove(i);
            return true;
        }
        i = i + 1;
    }
    proof {
        assert(!ids.contains(target@));
        lemma_remove_value_absent(ids, target@);
    }
    false
}

/// A persisted desktop workspace, independent from live widgets and callbacks.
#[derive(Debug, PartialEq)]
pub struct WorkspaceLayout {
    version: u32,
    root: LayoutNode,
    floating: Vec<FloatingPanel>,
    hidden: Vec<PanelId>,
    freeform_documents: Vec<FloatingDocument>,
}

/// The model of a [`WorkspaceLayout`].
#[verifier::ext_equal]
pub struct LayoutView {
    /// Format version.
    pub version: u32,
    /// Docked-content tree.
    pub root: NodeView,
    /// Floating panels.
    pub floating: Seq<WindowView>,
    /// Hidden panels.
    pub hidden: Seq<Seq<char>>,
    /// Free-form documents.
    pub freeform: Seq<WindowView>,
}

impl View for WorkspaceLayout {
    type V = LayoutView;

    closed spec fn view(&self) -> LayoutView {
        LayoutView {
            version: self.version,
            root: self.root@,
            floating: panel_windows(self.floating@),
            hidden: panel_texts(self.hidden@),
            freeform: document_windows(self.freeform_documents@),
        }
    }
}

fn copy_floating(items: &Vec<FloatingPanel>) -> (r: Vec<FloatingPanel>)
    ensures
        r@ == items@,
{
    let mut r: Vec<FloatingPanel> = Vec::new();
    let mut i: usize = 0;
    while i < items.len()
        invariant
            i <= items.len(),
            r@ == items@.subrange(0, i as int),
        decreases items.len() - i,
    {
        r.push(items[i].clone());
        i = i + 1;
    }
    assert(r@ =~= items@);
    r
}

fn copy_freeform(items: &Vec<FloatingDocument>) -> (r: Vec<FloatingDocument>)
    ensures
        r@ == items@,
{
    let mut r: Vec<FloatingDocument> = Vec::new();
    let mut i: usize = 0;
    while i < items.len()
        invariant
            i <= items.len(),
            r@ == items@.subrange(0, i as int),
        decreases items.len() - i,
    {
        r.push(items[i].clone());
        i = i + 1;
    }
    assert(r@ =~= items@);
    r
}

fn copy_hidden(ids: &Vec<PanelId>) -> (r: Vec<PanelId>)
    ensures
        r@ == ids@,
{
    let mut r: Vec<PanelId> = Vec::new();
    let mut i: usize = 0;
    while i < ids.len()
        invariant
            i <= ids.len(),
            r@ == ids@.subrange(0, i as int),
        decreases ids.len() - i,
    {
        r.push(ids[i].clone());
        i = i + 1;
    }
    assert(r@ =~= ids@);
    r
}

impl Clone for WorkspaceLayout {
    fn clone(&self) -> (r: Self)
        ensures
            r@ == self@,
    {
        WorkspaceLayout {
            version: self.version,
            root: self.root.clone(),
            floating: copy_floating(&self.floating),
            hidden: copy_hidden(&self.hidden),
            freeform_documents: copy_freeform(&self.freeform_documents),
        }
    }
}

/// Validation of a whole layout: the docked tree first, then the number of
/// document areas, then floating panels, hidden panels, and free-form
/// documents, each against every identifier checked before it.
pub open spec fn validation(l: LayoutView) -> Result<(), WorkspaceErrorView> {
    match check_node(l.root, Seq::empty(), Seq::empty()) {
        Err(e) => Err(e),
        Ok(state) => if document_areas(l.root) > 1 {
            Err(WorkspaceErrorView::MultipleDocumentAreas)
        } else {
            match admit_windows(l.floating, state.0, false) {
                Err(e) => Err(e),
                Ok(panels) => match admit_ids(l.hidden, panels) {
                    Err(id) => Err(WorkspaceErrorView::DuplicatePanel(id)),
                    Ok(_) => match admit_windows(l.freeform, state.1, true) {
                        Err(e) => Err(e),
                        Ok(_) => Ok(()),
                    },
                },
            }
        },
    }
}

/// `candidate` if it passes validation, otherwise the validation error.
pub open spec fn committed(candidate: LayoutView) -> Result<LayoutView, WorkspaceErrorView> {
    match validation(candidate) {
        Ok(()) => Ok(candidate),
        Err(e) => Err(e),
    }
}

/// The outcome of an operation that was expected to produce `expected`: on
/// success the layout becomes the expected one, on failure the error is
/// reported and the layout keeps its previous value.
pub open spec fn settles(
    before: LayoutView,
    after: LayoutView,
    r: Result<(), WorkspaceError>,
    expected: Result<LayoutView, WorkspaceErrorView>,
) -> bool {
    match expected {
        Ok(l) => r is Ok && after == l,
        Err(e) => (r matches Err(x) && x@ == e) && after == before,
    }
}

/// `l` with `root` as its docked tree.
pub open spec fn with_root(l: LayoutView, root: NodeView) -> LayoutView {
    LayoutView { root, ..l }
}

/// `l` with every trace of `panel` removed from the docked tree, the floating
/// panels, and the hidden panels, and whether any was found.
pub open spec fn without_panel(l: LayoutView, panel: Seq<char>) -> (LayoutView, bool) {
    let (root, in_root) = detached(l.root, panel);
    (
        LayoutView {
            root,
            floating: without_window(l.floating, panel),
            hidden: l.hidden.remove_value(panel),
            ..l
        },
        in_root || window_ids(l.floating).contains(panel) || l.hidden.contains(panel),
    )
}

/// Whether `panel` is docked in the tree of `l`.
pub open spec fn is_docked(l: LayoutView, panel: Seq<char>) -> bool {
    detached(l.root, panel).1
}

/// Whether `panel` is one of the floating panels of `l`.
pub open spec fn is_floating(l: LayoutView, panel: Seq<char>) -> bool {
    window_ids(l.floating).contains(panel)
}

/// A visible window with the next stacking order among `items`.
pub open spec fn new_window(items: Seq<WindowView>, id: Seq<char>, bounds: (u32, u32, u32, u32)) -> WindowView {
    WindowView { id, bounds, visible: true, z_order: next_z(window_z_orders(items)) }
}

/// The layout that [`WorkspaceLayout::new`] builds around `root`.
pub open spec fn fresh_layout(root: NodeView) -> LayoutView {
    LayoutView {
        version: WORKSPACE_LAYOUT_VERSION,
        root: normalized(root),
        floating: Seq::empty(),
        hidden: Seq::empty(),
        freeform: Seq::empty(),
    }
}

/// The result of accepting a stored layout: newer and older format versions
/// are rejected, then ratios and selections are normalized and the result is
/// validated.
pub open spec fn decoded(candidate: LayoutView) -> Result<LayoutView, WorkspaceErrorView> {
    if candidate.version > WORKSPACE_LAYOUT_VERSION {
        Err(WorkspaceErrorView::UnsupportedVersion(candidate.version))
    } else if candidate.version < WORKSPACE_LAYOUT_VERSION {
        Err(WorkspaceErrorView::MigrationRequired(candidate.version))
    } else {
        committed(with_root(candidate, normalized(candidate.root)))
    }
}

/// The expected result of [`WorkspaceLayout::split_panel`].
pub open spec fn split_panel_result(
    l: LayoutView,
    target: Seq<char>,
    panel: Seq<char>,
    axis: DockAxis,
    ratio: u32,
    placement: SplitPlacement,
) -> Result<LayoutView, WorkspaceErrorView> {
    if target == panel {
        Err(WorkspaceErrorView::SameSourceAndTarget)
    } else {
        let c = without_panel(l, panel).0;
        match split_at(c.root, target, panel, axis, ratio, placement) {
            Some(root) => committed(with_root(c, root)),
            None => Err(WorkspaceErrorView::PanelNotFound(target)),
        }
    }
}

/// The expected result of [`WorkspaceLayout::move_to_tabs`].
pub open spec fn move_to_tabs_result(l: LayoutView, target: Seq<char>, panel: Seq<char>) -> Result<
    LayoutView,
    WorkspaceErrorView,
> {
    if target == panel {
        Err(WorkspaceErrorView::SameSourceAndTarget)
    } else {
        let c = without_panel(l, panel).0;
        match tab_with(c.root, target, panel) {
            Some(root) => committed(with_root(c, root)),
            None => Err(WorkspaceErrorView::PanelNotFound(target)),
        }
    }
}

/// The expected result of [`WorkspaceLayout::float_panel`].
pub open spec fn float_panel_result(l: LayoutView, panel: Seq<char>, bounds: (u32, u32, u32, u32)) -> Result<
    LayoutView,
    WorkspaceErrorView,
> {
    let c = without_panel(l, panel).0;
    if !is_docked(l, panel) {
        Err(WorkspaceErrorView::PanelNotFound(panel))
    } else {
        committed(LayoutView { floating: c.floating.push(new_window(c.floating, panel, bounds)), ..c })
    }
}

/// The expected result of [`WorkspaceLayout::hide_panel`].
pub open spec fn hide_panel_result(l: LayoutView, panel: Seq<char>) -> Result<LayoutView, WorkspaceErrorView> {
    let c = without_panel(l, panel).0;
    if !is_docked(l, panel) && !is_floating(l, panel) {
        Err(WorkspaceErrorView::PanelNotFound(panel))
    } else {
        committed(LayoutView { hidden: c.hidden.push(panel), ..c })
    }
}

/// The expected result of [`WorkspaceLayout::show_panel`].
pub open spec fn show_panel_result(l: LayoutView, panel: Seq<char>, target: Seq<char>) -> Result<
    LayoutView,
    WorkspaceErrorView,
> {
    if !l.hidden.contains(panel) {
        Err(WorkspaceErrorView::PanelNotHidden(panel))
    } else {
        let c = LayoutView { hidden: l.hidden.remove_value(panel), ..l };
        match tab_with(c.root, target, panel) {
            Some(root) => committed(with_root(c, root)),
            None => Err(WorkspaceErrorView::PanelNotFound(target)),
        }
    }
}

/// The expected result of [`WorkspaceLayout::activate_panel`].
pub open spec fn activate_panel_result(l: LayoutView, panel: Seq<char>) -> Result<LayoutView, WorkspaceErrorView> {
    match activated_panel(l.root, panel) {
        Some(root) => committed(with_root(l, root)),
        None => Err(WorkspaceErrorView::PanelNotFound(panel)),
    }
}

/// The expected result of [`WorkspaceLayout::resize_split_for_panel`].
pub open spec fn resize_result(l: LayoutView, panel: Seq<char>, ratio: u32) -> Result<LayoutView, WorkspaceErrorView> {
    match resized(l.root, panel, ratio) {
        Some(root) => committed(with_root(l, root)),
        None => Err(WorkspaceErrorView::PanelNotFound(panel)),
    }
}

/// The expected result of [`WorkspaceLayout::float_document`].
pub open spec fn float_document_result(l: LayoutView, document: Seq<char>, bounds: (u32, u32, u32, u32)) -> Result<
    LayoutView,
    WorkspaceErrorView,
> {
    match without_document(l.root, document) {
        Some(root) => committed(
            LayoutView {
                root,
                freeform: l.freeform.push(new_window(l.freeform, document, bounds)),
                ..l
            },
        ),
        None => Err(WorkspaceErrorView::DocumentNotFound(document)),
    }
}

/// The expected result of [`WorkspaceLayout::dock_document`].
pub open spec fn dock_document_result(l: LayoutView, document: Seq<char>) -> Result<LayoutView, WorkspaceErrorView> {
    if !window_ids(l.freeform).contains(document) {
        Err(WorkspaceErrorView::DocumentNotFound(document))
    } else {
        let c = LayoutView { freeform: without_window(l.freeform, document), ..l };
        match with_document(c.root, document) {
            Some(root) => committed(with_root(c, root)),
            None => Err(WorkspaceErrorView::DocumentsAreaNotFound),
        }
    }
}

/// `window` raised to stacking order `z`.
pub open spec fn raised(window: WindowView, z: u32) -> WindowView {
    WindowView { z_order: z, ..window }
}

/// The expected result of [`WorkspaceLayout::activate_document`].
pub open spec fn activate_document_result(l: LayoutView, document: Seq<char>) -> Result<LayoutView, WorkspaceErrorView> {
    match activated_document(l.root, document) {
        Some(root) => committed(with_root(l, root)),
        None => match window_ids(l.freeform).index_of_first(document) {
            Some(i) => committed(
                LayoutView {
                    freeform: l.freeform.update(
                        i,
                        raised(l.freeform[i], next_z(window_z_orders(l.freeform))),
                    ),
                    ..l
                },
            ),
            None => Err(WorkspaceErrorView::DocumentNotFound(document)),
        },
    }
}


fn admit_panel_windows(seen: &mut Vec<PanelId>, items: &Vec<FloatingPanel>) -> (r: Result<(), WorkspaceError>)
    ensures
        match admit_windows(panel_windows(items@), panel_texts(old(seen)@), false) {
            Ok(s) => r is Ok && panel_texts(final(seen)@) == s,
            Err(e) => r matches Err(x) && x@ == e,
        },
{
    let ghost windows = panel_windows(items@);
    assert(windows.subrange(0, windows.len() as int) =~= windows);
    let mut i: usize = 0;
    while i < items.len()
        invariant
            i <= items.len(),
            windows == panel_windows(items@),
            admit_windows(windows, panel_texts(old(seen)@), false) == admit_windows(
                windows.subrange(i as int, windows.len() as int),
                panel_texts(seen@),
                false,
            ),
        decreases items.len() - i,
    {
        let ghost current = panel_texts(seen@);
        assert(windows.subrange(i as int, windows.len() as int)[0] == windows[i as int]);
        match items[i].bounds.ensure_valid() {
            Ok(()) => {},
            Err(e) => return Err(e),
        }
        match admit_panel(seen, &items[i].id) {
            Ok(()) => {
                proof {
                    lemma_admit_windows_step(windows, i as int, current, false);
                }
            },
            Err(e) => return Err(e),
        }
        i = i + 1;
    }
    assert(windows.subrange(i as int, windows.len() as int).len() == 0);
    Ok(())
}

fn admit_document_windows(seen: &mut Vec<DocumentId>, items: &Vec<FloatingDocument>) -> (r: Result<
    (),
    WorkspaceError,
>)
    ensures
        match admit_windows(document_windows(items@), document_texts(old(seen)@), true) {
            Ok(s) => r is Ok && document_texts(final(seen)@) == s,
            Err(e) => r matches Err(x) && x@ == e,
        },
{
    let ghost windows = document_windows(items@);
    assert(windows.subrange(0, windows.len() as int) =~= windows);
    let mut i: usize = 0;
    while i < items.len()
        invariant
            i <= items.len(),
            windows == document_windows(items@),
            admit_windows(windows, document_texts(old(seen)@), true) == admit_windows(
                windows.subrange(i as int, windows.len() as int),
                document_texts(seen@),
                true,
            ),
        decreases items.len() - i,
    {
        let ghost current = document_texts(seen@);
        assert(windows.subrange(i as int, windows.len() as int)[0] == windows[i as int]);
        match items[i].bounds.ensure_valid() {
            Ok(()) => {},
            Err(e) => return Err(e),
        }
        match admit_document(seen, &items[i].id) {
            Ok(()) => {
                proof {
                    lemma_admit_windows_step(windows, i as int, current, true);
                }
            },
            Err(e) => return Err(e),
        }
        i = i + 1;
    }
    assert(windows.subrange(i as int, windows.len() as int).len() == 0);
    Ok(())
}

impl WorkspaceLayout {
    /// Creates and validates the initial workspace layout.
    ///
    /// Split ratios are normalized and invalid selected tab IDs are repaired
    /// before validation. Returns an error when panel or document IDs occur
    /// more than once or the tree has more than one document area.
    pub fn new(root: LayoutNode) -> (r: Result<Self, WorkspaceError>)
        ensures
            match committed(fresh_layout(root@)) {
                Ok(l) => r matches Ok(x) && x@ == l,
                Err(e) => r matches Err(x) && x@ == e,
            },
    {
        let layout = WorkspaceLayout {
            version: WORKSPACE_LAYOUT_VERSION,
            root: normalize_node(root),
            floating: Vec::new(),
            hidden: Vec::new(),
            freeform_documents: Vec::new(),
        };
        assert(layout@ =~= fresh_layout(root@));
        match layout.validate() {
            Ok(()) => Ok(layout),
            Err(e) => Err(e),
        }
    }

    /// Assembles a layout from stored parts without normalizing or validating
    /// it, as a storage decoder does. Pass the result to
    /// [`Self::from_decoded`] or [`Self::restore`] before use.
    pub fn from_parts(
        version: u32,
        root: LayoutNode,
        floating: Vec<FloatingPanel>,
        hidden: Vec<PanelId>,
        freeform_documents: Vec<FloatingDocument>,
    ) -> (r: Self)
        ensures
            r@ == (LayoutView {
                version,
                root: root@,
                floating: panel_windows(floating@),
                hidden: panel_texts(hidden@),
                freeform: document_windows(freeform_documents@),
            }),
    {
        WorkspaceLayout { version, root, floating, hidden, freeform_documents }
    }

    /// Returns the persisted format version.
    pub fn version(&self) -> (r: u32)
        ensures
            r == self@.version,
    {
        self.version
    }

    /// Returns the root of the docked-content tree.
    pub fn root(&self) -> (r: &LayoutNode)
        ensures
            r@ == self@.root,
    {
        &self.root
    }

    /// Returns all floating panels.
    pub fn floating(&self) -> (r: &[FloatingPanel])
        ensures
            panel_windows(r@) == self@.floating,
    {
        self.floating.as_slice()
    }

    /// Returns panel IDs hidden from the docked and floating areas.
    pub fn hidden(&self) -> (r: &[PanelId])
        ensures
            panel_texts(r@) == self@.hidden,
    {
        self.hidden.as_slice()
    }

    /// Returns all free-form document child windows.
    pub fn freeform_documents(&self) -> (r: &[FloatingDocument])
        ensures
            document_windows(r@) == self@.freeform,
    {
        self.freeform_documents.as_slice()
    }

    /// Validates uniqueness, tree structure, split ratios, and floating bounds.
    pub fn validate(&self) -> (r: Result<(), WorkspaceError>)
        ensures
            match validation(self@) {
                Ok(()) => r is Ok,
                Err(e) => r matches Err(x) && x@ == e,
            },
    {
        let mut panels: Vec<PanelId> = Vec::new();
        let mut documents: Vec<DocumentId> = Vec::new();
        let mut areas: u32 = 0;
        assert(panel_texts(panels@) =~= Seq::<Seq<char>>::empty());
        assert(document_texts(documents@) =~= Seq::<Seq<char>>::empty());
        match validate_node(&self.root, &mut panels, &mut documents, &mut areas) {
            Ok(()) => {},
            Err(e) => return Err(e),
        }
        if areas > 1 {
            return Err(WorkspaceError::MultipleDocumentAreas);
        }
        match admit_panel_windows(&mut panels, &self.floating) {
            Ok(()) => {},
            Err(e) => return Err(e),
        }
        match admit_panels(&mut panels, &self.hidden) {
            Ok(()) => {},
            Err(e) => return Err(e),
        }
        admit_document_windows(&mut documents, &self.freeform_documents)
    }

    /// Accepts a decoded layout: rejects unsupported format versions, then
    /// normalizes ratios and selections and validates the result.
    pub fn from_decoded(candidate: WorkspaceLayout) -> (r: Result<Self, WorkspaceError>)
        ensures
            match decoded(candidate@) {
                Ok(l) => r matches Ok(x) && x@ == l,
                Err(e) => r matches Err(x) && x@ == e,
            },
    {
        if candidate.version > WORKSPACE_LAYOUT_VERSION {
            return Err(WorkspaceError::UnsupportedVersion(candidate.version));
        }
        if candidate.version < WORKSPACE_LAYOUT_VERSION {
            return Err(WorkspaceError::MigrationRequired(candidate.version));
        }
        let WorkspaceLayout { version, root, floating, hidden, freeform_documents } = candidate;
        let layout = WorkspaceLayout {
            version,
            root: normalize_node(root),
            floating,
            hidden,
            freeform_documents,
        };
        match layout.validate() {
            Ok(()) => Ok(layout),
            Err(e) => Err(e),
        }
    }

    /// Replaces the layout only when `candidate` is valid and supported.
    pub fn restore(&mut self, candidate: Self) -> (r: Result<(), WorkspaceError>)
        ensures
            settles(old(self)@, final(self)@, r, decoded(candidate@)),
    {
        match Self::from_decoded(candidate) {
            Ok(layout) => {
                *self = layout;
                Ok(())
            },
            Err(e) => Err(e),
        }
    }

    fn commit(&mut self, candidate: WorkspaceLayout) -> (r: Result<(), WorkspaceError>)
        ensures
            settles(old(self)@, final(self)@, r, committed(candidate@)),
    {
        match candidate.validate() {
            Ok(()) => {
                *self = candidate;
                Ok(())
            },
            Err(e) => Err(e),
        }
    }

    fn detached_panel(self, panel: &PanelId) -> (r: (WorkspaceLayout, bool, bool))
        ensures
            r.0@ == without_panel(self@, panel@).0,
            r.1 == is_docked(self@, panel@),
            r.2 == is_floating(self@, panel@),
    {
        let WorkspaceLayout { version, root, floating, hidden, freeform_documents } = self;
        let mut floating = floating;
        let mut hidden = hidden;
        let (root, from_root) = detach_panel_from_node(root, panel);
        let from_floating = take_panel(&mut floating, panel);
        take_id(&mut hidden, panel);
        (WorkspaceLayout { version, root, floating, hidden, freeform_documents }, from_root, from_floating)
    }

    /// Splits `target` and puts `panel` into the requested branch.
    ///
    /// A previously docked, hidden, or floating `panel` is first removed from
    /// its old location. An unplaced ID is also accepted, allowing an
    /// application registry to add a newly available panel.
    pub fn split_panel(
        &mut self,
        target: &PanelId,
        panel: PanelId,
        axis: DockAxis,
        ratio: u32,
        placement: SplitPlacement,
    ) -> (r: Result<(), WorkspaceError>)
        ensures
            settles(
                old(self)@,
                final(self)@,
                r,
                split_panel_result(old(self)@, target@, panel@, axis, ratio, placement),
            ),
    {
        if target.same_as(&panel) {
            return Err(WorkspaceError::SameSourceAndTarget);
        }
        let (candidate, _, _) = self.clone().detached_panel(&panel);
        let WorkspaceLayout { version, root, floating, hidden, freeform_documents } = candidate;
        let (root, found) = split_at_panel(root, target, &panel, axis, ratio, placement);
        if !found {
            return Err(WorkspaceError::PanelNotFound(target.clone()));
        }
        self.commit(WorkspaceLayout { version, root, floating, hidden, freeform_documents })
    }

    /// Moves `panel` into a tab group with `target` and activates it.
    ///
    /// An unplaced `panel` ID is accepted so a registered panel can be added to
    /// a workspace for the first time.
    pub fn move_to_tabs(&mut self, target: &PanelId, panel: PanelId) -> (r: Result<(), WorkspaceError>)
        ensures
            settles(old(self)@, final(self)@, r, move_to_tabs_result(old(self)@, target@, panel@)),
    {
        if target.same_as(&panel) {
            return Err(WorkspaceError::SameSourceAndTarget);
        }
        let (candidate, _, _) = self.clone().detached_panel(&panel);
        let WorkspaceLayout { version, root, floating, hidden, freeform_documents } = candidate;
        let (root, found) = tab_with_panel(root, target, &panel);
        if !found {
            return Err(WorkspaceError::PanelNotFound(target.clone()));
        }
        self.commit(WorkspaceLayout { version, root, floating, hidden, freeform_documents })
    }

    /// Docks `panel` as a tab beside `target`.
    pub fn dock_panel(&mut self, target: &PanelId, panel: PanelId) -> (r: Result<(), WorkspaceError>)
        ensures
            settles(old(self)@, final(self)@, r, move_to_tabs_result(old(self)@, target@, panel@)),
    {
        self.move_to_tabs(target, panel)
    }

    /// Moves a docked panel into a visible floating window raised above the
    /// other floating panels. Fails with `PanelNotFound` unless the panel is
    /// docked.
    pub fn float_panel(&mut self, panel: &PanelId, bounds: WorkspaceBounds) -> (r: Result<
        (),
        WorkspaceError,
    >)
        ensures
            settles(old(self)@, final(self)@, r, float_panel_result(old(self)@, panel@, bounds@)),
    {
        let (candidate, docked, _) = self.clone().detached_panel(panel);
        if !docked {
            return Err(WorkspaceError::PanelNotFound(panel.clone()));
        }
        let WorkspaceLayout { version, root, floating, hidden, freeform_documents } = candidate;
        let mut floating = floating;
        let z_order = next_z_order(&floating);
        proof {
            lemma_panel_z_orders(floating@);
        }
        let ghost before = floating@;
        let window = FloatingPanel { id: panel.clone(), bounds, visible: true, z_order };
        floating.push(window);
        proof {
            lemma_map_push(before, |item: FloatingPanel| item@, window);
        }
        self.commit(WorkspaceLayout { version, root, floating, hidden, freeform_documents })
    }

    /// Hides a panel regardless of whether it is docked or floating. Fails
    /// with `PanelNotFound` when the panel is neither docked nor floating.
    pub fn hide_panel(&mut self, panel: &PanelId) -> (r: Result<(), WorkspaceError>)
        ensures
            settles(old(self)@, final(self)@, r, hide_panel_result(old(self)@, panel@)),
    {
        let (candidate, docked, floating_now) = self.clone().detached_panel(panel);
        if !docked && !floating_now {
            return Err(WorkspaceError::PanelNotFound(panel.clone()));
        }
        let WorkspaceLayout { version, root, floating, hidden, freeform_documents } = candidate;
        let mut hidden = hidden;
        let ghost before = hidden@;
        hidden.push(panel.clone());
        proof {
            lemma_map_push(before, |id: PanelId| id@, *panel);
        }
        self.commit(WorkspaceLayout { version, root, floating, hidden, freeform_documents })
    }

    /// Shows a hidden panel as the active tab beside `target`.
    pub fn show_panel(&mut self, panel: &PanelId, target: &PanelId) -> (r: Result<(), WorkspaceError>)
        ensures
            settles(old(self)@, final(self)@, r, show_panel_result(old(self)@, panel@, target@)),
    {
        let WorkspaceLayout { version, root, floating, hidden, freeform_documents } = self.clone();
        let mut hidden = hidden;
        if !take_id(&mut hidden, panel) {
            return Err(WorkspaceError::PanelNotHidden(panel.clone()));
        }
        let (root, found) = tab_with_panel(root, target, panel);
        if !found {
            return Err(WorkspaceError::PanelNotFound(target.clone()));
        }
        self.commit(WorkspaceLayout { version, root, floating, hidden, freeform_documents })
    }

    /// Selects a panel in its tab group.
    pub fn activate_panel(&mut self, panel: &PanelId) -> (r: Result<(), WorkspaceError>)
        ensures
            settles(old(self)@, final(self)@, r, activate_panel_result(old(self)@, panel@)),
    {
        let WorkspaceLayout { version, root, floating, hidden, freeform_documents } = self.clone();
        let (root, found) = activate_panel_in_node(root, panel);
        if !found {
            return Err(WorkspaceError::PanelNotFound(panel.clone()));
        }
        self.commit(WorkspaceLayout { version, root, floating, hidden, freeform_documents })
    }

    /// Resizes the innermost dock split that contains `panel`, with the
    /// encoded `ratio` normalized to the supported `0.1..=0.9` range.
    pub fn resize_split_for_panel(&mut self, panel: &PanelId, ratio: u32) -> (r: Result<
        (),
        WorkspaceError,
    >)
        ensures
            settles(old(self)@, final(self)@, r, resize_result(old(self)@, panel@, ratio)),
    {
        let WorkspaceLayout { version, root, floating, hidden, freeform_documents } = self.clone();
        let (root, found) = resize_split_in_node(root, panel, ratio);
        if !found {
            return Err(WorkspaceError::PanelNotFound(panel.clone()));
        }
        self.commit(WorkspaceLayout { version, root, floating, hidden, freeform_documents })
    }

    /// Moves a docked document into a visible free-form child window raised
    /// above the other free-form documents.
    pub fn float_document(&mut self, document: &DocumentId, bounds: WorkspaceBounds) -> (r: Result<
        (),
        WorkspaceError,
    >)
        ensures
            settles(
                old(self)@,
                final(self)@,
                r,
                float_document_result(old(self)@, document@, bounds@),
            ),
    {
        let WorkspaceLayout { version, root, floating, hidden, freeform_documents } = self.clone();
        let (root, found) = detach_document(root, document);
        if !found {
            return Err(WorkspaceError::DocumentNotFound(document.clone()));
        }
        let mut freeform_documents = freeform_documents;
        let z_order = next_z_order(&freeform_documents);
        proof {
            lemma_document_z_orders(freeform_documents@);
        }
        let ghost before = freeform_documents@;
        let window = FloatingDocument { id: document.clone(), bounds, visible: true, z_order };
        freeform_documents.push(window);
        proof {
            lemma_map_push(before, |item: FloatingDocument| item@, window);
        }
        self.commit(WorkspaceLayout { version, root, floating, hidden, freeform_documents })
    }

    /// Returns a free-form document to the central document area and
    /// activates it.
    pub fn dock_document(&mut self, document: &DocumentId) -> (r: Result<(), WorkspaceError>)
        ensures
            settles(old(self)@, final(self)@, r, dock_document_result(old(self)@, document@)),
    {
        let WorkspaceLayout { version, root, floating, hidden, freeform_documents } = self.clone();
        let mut freeform_documents = freeform_documents;
        if !take_document(&mut freeform_documents, document) {
            return Err(WorkspaceError::DocumentNotFound(document.clone()));
        }
        let (root, found) = insert_document(root, document);
        if !found {
            return Err(WorkspaceError::DocumentsAreaNotFound);
        }
        self.commit(WorkspaceLayout { version, root, floating, hidden, freeform_documents })
    }

    /// Selects a document in the central document area or raises a free-form
    /// one above the other free-form documents.
    pub fn activate_document(&mut self, document: &DocumentId) -> (r: Result<(), WorkspaceError>)
        ensures
            settles(
                old(self)@,
                final(self)@,
                r,
                activate_document_result(old(self)@, document@),
            ),
    {
        let WorkspaceLayout { version, root, floating, hidden, freeform_documents } = self.clone();
        let (root, found) = activate_document_in_node(root, document);
        if found {
            return self.commit(
                WorkspaceLayout { version, root, floating, hidden, freeform_documents },
            );
        }
        let mut freeform_documents = freeform_documents;
        let z_order = next_z_order(&freeform_documents);
        proof {
            lemma_document_z_orders(freeform_documents@);
        }
        let ghost windows = document_windows(freeform_documents@);
        let ghost ids = window_ids(windows);
        let mut i: usize = 0;
        while i < freeform_documents.len()
            invariant
                i <= freeform_documents.len(),
                windows == document_windows(freeform_documents@),
                windows == old(self)@.freeform,
                ids == window_ids(windows),
                z_order == next_z(window_z_orders(windows)),
                activated_document(old(self)@.root, document@) is None,
                root@ == old(self)@.root,
                version == old(self)@.version,
                panel_windows(floating@) == old(self)@.floating,
                panel_texts(hidden@) == old(self)@.hidden,
                *self == *old(self),
                forall|j: int| 0 <= j < i ==> ids[j] != document@,
            decreases freeform_documents.len() - i,
        {
            if freeform_documents[i].id.same_as(document) {
                proof {
                    lemma_remove_value_at(ids, document@, i as int);
                }
                let ghost before = freeform_documents@;
                let mut item = freeform_documents.remove(i);
                item.z_order = z_order;
                freeform_documents.insert(i, item);
                assert(document_windows(freeform_documents@) =~= windows.update(
                    i as int,
                    raised(windows[i as int], z_order),
                ));
                return self.commit(
                    WorkspaceLayout { version, root, floating, hidden, freeform_documents },
                );
            }
            i = i + 1;
        }
        proof {
            assert(!ids.contains(document@));
            lemma_remove_value_absent(ids, document@);
        }
        Err(WorkspaceError::DocumentNotFound(document.clone()))
    }
}

} // verus!
