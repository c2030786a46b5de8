//! Data types of the retained widget runtime and its standard widgets.

use vstd::prelude::*;

use crate::dock_ids::{DocumentId, PanelId};
use crate::input::{Key, KeyEvent, KeyView, Modifiers};

verus! {

/// The outcome of routing an input event to a widget.
#[derive(Clone, Copy, Debug, PartialEq, Eq, Structural)]
pub enum EventStatus {
    /// The widget did not act on the event.
    Ignored,
    /// The widget handled the event.
    Handled,
}

impl Default for EventStatus {
    fn default() -> (r: Self)
        ensures
            r == EventStatus::Ignored,
    {
        EventStatus::Ignored
    }
}

impl EventStatus {
    /// Returns whether the event was handled.
    pub fn is_handled(self) -> (r: bool)
        ensures
            r == (self == EventStatus::Handled),
    {
        match self {
            EventStatus::Handled => true,
            EventStatus::Ignored => false,
        }
    }
}

/// Combines the statuses of two handlers of one event: the event is handled
/// when either handled it.
pub fn merge_status(left: EventStatus, right: EventStatus) -> (r: EventStatus)
    ensures
        r == (if left == EventStatus::Handled || right == EventStatus::Handled {
            EventStatus::Handled
        } else {
            EventStatus::Ignored
        }),
{
    if left.is_handled() || right.is_handled() {
        EventStatus::Handled
    } else {
        EventStatus::Ignored
    }
}

/// A keyboard shortcut consisting of a logical key and required modifiers.
#[derive(Debug, PartialEq, Eq, Hash)]
pub struct KeyChord {
    key: Key,
    modifiers: Modifiers,
}

impl View for KeyChord {
    type V = (KeyView, u8);

    closed spec fn view(&self) -> (KeyView, u8) {
        (self.key@, self.modifiers@)
    }
}

impl Clone for KeyChord {
    fn clone(&self) -> (r: Self)
        ensures
            r@ == self@,
    {
        KeyChord { key: self.key.clone(), modifiers: self.modifiers }
    }
}

impl KeyChord {
    /// Creates a shortcut activated by `key` while exactly `modifiers` are held.
    pub fn new(key: Key, modifiers: Modifiers) -> (r: Self)
        ensures
            r@ == (key@, modifiers@),
    {
        KeyChord { key, modifiers }
    }

    /// Returns whether this shortcut matches a key event: the same key with
    /// exactly the same modifiers.
    pub fn matches(&self, event: &KeyEvent) -> (r: bool)
        ensures
            r == (self@.0 == event.key@ && self@.1 == event.modifiers@),
    {
        self.key.same_as(&event.key) && self.modifiers.same_as(event.modifiers)
    }
}

/// Per-node invalidation state maintained by the widget runtime.
#[derive(Clone, Copy, Debug, Default, PartialEq, Eq, Structural)]
pub struct DirtyFlags {
    /// The node needs layout.
    pub layout: bool,
    /// The node needs repainting.
    pub paint: bool,
    /// The node's hit-test bounds have changed.
    pub hit_test: bool,
}

impl DirtyFlags {
    /// Every kind of invalidation at once.
    pub fn all() -> (r: Self)
        ensures
            r == (DirtyFlags { layout: true, paint: true, hit_test: true }),
    {
        DirtyFlags { layout: true, paint: true, hit_test: true }
    }
}

/// Why a widget runtime operation could not be completed.
#[derive(Clone, Copy, Debug, PartialEq, Eq, Structural)]
pub enum UiRuntimeError {
    /// Application widget code panicked during the requested operation.
    WidgetPanicked,
    /// A widget supplied child layouts that do not match its retained children.
    InvalidLayout,
    /// A requested node handle is stale or does not belong to this runtime.
    InvalidWidgetId,
}

impl UiRuntimeError {
    /// Returns a human-readable description of the error.
    pub fn describe(&self) -> (r: &'static str)
        ensures
            r@ == (match *self {
                UiRuntimeError::WidgetPanicked => "application widget panicked; inspect runtime diagnostics"@,
                UiRuntimeError::InvalidLayout => "widget layout must position distinct direct children in tree order"@,
                UiRuntimeError::InvalidWidgetId => "widget handle is stale or does not belong to this runtime"@,
            }),
    {
        match self {
            UiRuntimeError::WidgetPanicked => "application widget panicked; inspect runtime diagnostics",
            UiRuntimeError::InvalidLayout => "widget layout must position distinct direct children in tree order",
            UiRuntimeError::InvalidWidgetId => "widget handle is stale or does not belong to this runtime",
        }
    }
}

/// Appearance reported by a platform adapter.
#[derive(Clone, Copy, Debug, PartialEq, Eq, Structural)]
pub enum SystemAppearance {
    /// Use the light palette.
    Light,
    /// Use the dark palette.
    Dark,
}

impl Default for SystemAppearance {
    fn default() -> (r: Self)
        ensures
            r == SystemAppearance::Dark,
    {
        SystemAppearance::Dark
    }
}

/// Theme selected from the appearance supplied by the operating system.
#[derive(Clone, Copy, Debug, PartialEq, Eq, Structural)]
pub struct SystemTheme {
    appearance: SystemAppearance,
}

impl View for SystemTheme {
    type V = SystemAppearance;

    closed spec fn view(&self) -> SystemAppearance {
        self.appearance
    }
}

impl Default for SystemTheme {
    fn default() -> (r: Self)
        ensures
            r@ == SystemAppearance::Dark,
    {
        SystemTheme { appearance: SystemAppearance::Dark }
    }
}

impl SystemTheme {
    /// Creates a system theme using the appearance reported by a platform adapter.
    pub fn new(appearance: SystemAppearance) -> (r: Self)
        ensures
            r@ == appearance,
    {
        SystemTheme { appearance }
    }

    /// Returns the currently selected system appearance.
    pub fn appearance(self) -> (r: SystemAppearance)
        ensures
            r == self@,
    {
        self.appearance
    }

    /// Updates this theme after the platform reports an appearance change.
    pub fn set_appearance(&mut self, appearance: SystemAppearance)
        ensures
            final(self)@ == appearance,
    {
        self.appearance = appearance;
    }
}

/// Built-in dark color theme.
#[derive(Clone, Copy, Debug, Default, PartialEq, Eq, Structural)]
pub struct DarkTheme;

/// Built-in light color theme.
#[derive(Clone, Copy, Debug, Default, PartialEq, Eq, Structural)]
pub struct LightTheme;

/// A semantic color of a theme.
#[derive(Clone, Copy, Debug, PartialEq, Eq, Structural)]
pub enum ColorRole {
    /// Main background color for application surfaces.
    Background,
    /// Default foreground color for text and icons.
    Foreground,
    /// Highlight color for focused and selected controls.
    Accent,
    /// Default background color for a button or similarly raised control.
    ButtonBackground,
    /// Background color for a pressed button or similarly active control.
    ButtonPressedBackground,
    /// Background color for a button whose pointer is hovering over it.
    ButtonHoverBackground,
}

/// An 8-bit sRGBA color.
#[derive(Clone, Copy, Debug, PartialEq, Eq, Structural)]
pub struct Rgba8 {
    /// Red component.
    pub red: u8,
    /// Green component.
    pub green: u8,
    /// Blue component.
    pub blue: u8,
    /// Alpha component.
    pub alpha: u8,
}

/// An opaque gray.
pub open spec fn gray(level: u8) -> Rgba8 {
    Rgba8 { red: level, green: level, blue: level, alpha: 255 }
}

/// The built-in palettes, by appearance and role.
pub open spec fn palette(appearance: SystemAppearance, role: ColorRole) -> Rgba8 {
    match appearance {
        SystemAppearance::Dark => match role {
            ColorRole::Background => gray(30),
            ColorRole::Foreground => gray(230),
            ColorRole::Accent => Rgba8 { red: 0, green: 122, blue: 204, alpha: 255 },
            ColorRole::ButtonBackground => gray(60),
            ColorRole::ButtonPressedBackground => gray(80),
            ColorRole::ButtonHoverBackground => gray(70),
        },
        SystemAppearance::Light => match role {
            ColorRole::Background => gray(250),
            ColorRole::Foreground => gray(30),
            ColorRole::Accent => Rgba8 { red: 0, green: 103, blue: 192, alpha: 255 },
            ColorRole::ButtonBackground => gray(235),
            ColorRole::ButtonPressedBackground => gray(210),
            ColorRole::ButtonHoverBackground => gray(225),
        },
    }
}

fn opaque_gray(level: u8) -> (r: Rgba8)
    ensures
        r == gray(level),
{
    Rgba8 { red: level, green: level, blue: level, alpha: 255 }
}

fn palette_color(appearance: SystemAppearance, role: ColorRole) -> (r: Rgba8)
    ensures
        r == palette(appearance, role),
{
    match appearance {
        SystemAppearance::Dark => match role {
            ColorRole::Background => opaque_gray(30),
            ColorRole::Foreground => opaque_gray(230),
            ColorRole::Accent => Rgba8 { red: 0, green: 122, blue: 204, alpha: 255 },
            ColorRole::ButtonBackground => opaque_gray(60),
            ColorRole::ButtonPressedBackground => opaque_gray(80),
            ColorRole::ButtonHoverBackground => opaque_gray(70),
        },
        SystemAppearance::Light => match role {
            ColorRole::Background => opaque_gray(250),
            ColorRole::Foreground => opaque_gray(30),
            ColorRole::Accent => Rgba8 { red: 0, green: 103, blue: 192, alpha: 255 },
            ColorRole::ButtonBackground => opaque_gray(235),
            ColorRole::ButtonPressedBackground => opaque_gray(210),
            ColorRole::ButtonHoverBackground => opaque_gray(225),
        },
    }
}

impl DarkTheme {
    /// Returns the dark palette's color for `role`.
    pub fn color(&self, role: ColorRole) -> (r: Rgba8)
        ensures
            r == palette(SystemAppearance::Dark, role),
    {
        palette_color(SystemAppearance::Dark, role)
    }
}

impl LightTheme {
    /// Returns the light palette's color for `role`.
    pub fn color(&self, role: ColorRole) -> (r: Rgba8)
        ensures
            r == palette(SystemAppearance::Light, role),
    {
        palette_color(SystemAppearance::Light, role)
    }
}

impl SystemTheme {
    /// Returns the color for `role` from the palette of the reported
    /// appearance.
    pub fn color(&self, role: ColorRole) -> (r: Rgba8)
        ensures
            r == palette(self@, role),
    {
        palette_color(self.appearance, role)
    }
}

/// The two built-in palettes have distinct surfaces.
pub proof fn law_built_in_palettes_have_distinct_surfaces()
    ensures
        palette(SystemAppearance::Dark, ColorRole::Background) != palette(
            SystemAppearance::Light,
            ColorRole::Background,
        ),
{
}

/// A container that positions its runtime-owned children left-to-right.
#[derive(Clone, Copy, Debug, Default, PartialEq, Eq, Structural)]
pub struct Row;

impl Row {
    /// Creates a row without children.
    pub fn new() -> (r: Self)
        ensures
            r == Row,
    {
        Row
    }
}

/// A container that positions its runtime-owned children top-to-bottom.
#[derive(Clone, Copy, Debug, Default, PartialEq, Eq, Structural)]
pub struct Column;

impl Column {
    /// Creates a column without children.
    pub fn new() -> (r: Self)
        ensures
            r == Column,
    {
        Column
    }
}

/// A container that overlays all of its children at the top-left corner.
#[derive(Clone, Copy, Debug, Default, PartialEq, Eq, Structural)]
pub struct Stack;

impl Stack {
    /// Creates an empty stack.
    pub fn new() -> (r: Self)
        ensures
            r == Stack,
    {
        Stack
    }
}

/// Placement along a single layout axis.
#[derive(Clone, Copy, Debug, PartialEq, Eq, Structural)]
pub enum Alignment {
    /// Place content at the start edge.
    Start,
    /// Place content at the center.
    Center,
    /// Place content at the end edge.
    End,
}

impl Default for Alignment {
    fn default() -> (r: Self)
        ensures
            r == Alignment::Center,
    {
        Alignment::Center
    }
}

/// A single-child container that aligns its child inside the available area.
#[derive(Clone, Copy, Debug, PartialEq, Eq, Structural)]
pub struct Align {
    horizontal: Alignment,
    vertical: Alignment,
}

impl View for Align {
    type V = (Alignment, Alignment);

    closed spec fn view(&self) -> (Alignment, Alignment) {
        (self.horizontal, self.vertical)
    }
}

impl Align {
    /// Creates an alignment container.
    pub fn new(horizontal: Alignment, vertical: Alignment) -> (r: Self)
        ensures
            r@ == (horizontal, vertical),
    {
        Align { horizontal, vertical }
    }

    /// Returns the horizontal alignment.
    pub fn horizontal(&self) -> (r: Alignment)
        ensures
            r == self@.0,
    {
        self.horizontal
    }

    /// Returns the vertical alignment.
    pub fn vertical(&self) -> (r: Alignment)
        ensures
            r == self@.1,
    {
        self.vertical
    }
}

impl Default for Align {
    fn default() -> (r: Self)
        ensures
            r@ == (Alignment::Center, Alignment::Center),
    {
        Align::new(Alignment::Center, Alignment::Center)
    }
}

/// Scroll direction supported by a scroll view.
#[derive(Clone, Copy, Debug, PartialEq, Eq, Structural)]
pub enum ScrollAxis {
    /// Scroll horizontally.
    Horizontal,
    /// Scroll vertically.
    Vertical,
}

impl Default for ScrollAxis {
    fn default() -> (r: Self)
        ensures
            r == ScrollAxis::Vertical,
    {
        ScrollAxis::Vertical
    }
}

/// The half-open range of rows a virtualized list lays out, given the first
/// and last rows that intersect its viewport: one more row on each side is
/// kept as overscan, and the range never reaches past the last row.
pub open spec fn retained_rows(first_visible: usize, last_visible: usize, row_count: usize) -> (int, int) {
    let first = if first_visible > 0 { first_visible - 1 } else { 0 };
    let after = if last_visible < usize::MAX { last_visible + 1 } else { last_visible as int };
    (first, if after < row_count { after } else { row_count as int })
}

/// Returns the half-open range of rows a virtualized list lays out.
pub fn overscan_rows(first_visible: usize, last_visible: usize, row_count: usize) -> (r: (
    usize,
    usize,
))
    ensures
        (r.0 as int, r.1 as int) == retained_rows(first_visible, last_visible, row_count),
{
    let first = if first_visible > 0 { first_visible - 1 } else { 0 };
    let after = if last_visible < usize::MAX { last_visible + 1 } else { last_visible };
    (first, if after < row_count { after } else { row_count })
}

/// Direction in which a splitter divides its two children.
#[derive(Clone, Copy, Debug, PartialEq, Eq, Structural)]
pub enum SplitAxis {
    /// Arrange children left-to-right with a vertical divider.
    Horizontal,
    /// Arrange children top-to-bottom with a horizontal divider.
    Vertical,
}

impl Default for SplitAxis {
    fn default() -> (r: Self)
        ensures
            r == SplitAxis::Horizontal,
    {
        SplitAxis::Horizontal
    }
}

/// Stable workspace item represented by one direct child of a dock area.
#[derive(Debug, PartialEq, Eq, Hash)]
pub enum DockItem {
    /// A tool panel.
    Panel(PanelId),
    /// A document.
    Document(DocumentId),
}

/// The model of a [`DockItem`]: whether it is a document, and its text.
pub open spec fn dock_item_key(item: DockItem) -> (bool, Seq<char>) {
    match item {
        DockItem::Panel(id) => (false, id@),
        DockItem::Document(id) => (true, id@),
    }
}

impl Clone for DockItem {
    fn clone(&self) -> (r: Self)
        ensures
            r == *self,
    {
        match self {
            DockItem::Panel(id) => DockItem::Panel(id.clone()),
            DockItem::Document(id) => DockItem::Document(id.clone()),
        }
    }
}

impl DockItem {
    /// Returns whether both items name the same panel or the same document.
    pub fn same_as(&self, other: &DockItem) -> (r: bool)
        ensures
            r == (dock_item_key(*self) == dock_item_key(*other)),
    {
        match (self, other) {
            (DockItem::Panel(a), DockItem::Panel(b)) => a.same_as(b),
            (DockItem::Document(a), DockItem::Document(b)) => a.same_as(b),
            _ => false,
        }
    }
}

/// Why adding an item binding to a dock area failed.
#[derive(Debug, PartialEq, Eq)]
pub enum DockAreaError {
    /// The item already has a direct-child binding.
    DuplicateItem(DockItem),
}

/// The keys of a sequence of dock items.
pub open spec fn dock_item_keys(items: Seq<DockItem>) -> Seq<(bool, Seq<char>)> {
    items.map_values(|item: DockItem| dock_item_key(item))
}

/// Binds the next direct child of a dock area to `item`, rejecting an item
/// that is already bound.
pub fn register_item(items: &mut Vec<DockItem>, item: DockItem) -> (r: Result<(), DockAreaError>)
    ensures
        dock_item_keys(old(items)@).contains(dock_item_key(item)) ==> (r == Err::<
            (),
            DockAreaError,
        >(DockAreaError::DuplicateItem(item)) && final(items)@ == old(items)@),
        !dock_item_keys(old(items)@).contains(dock_item_key(item)) ==> (r is Ok && final(items)@
            == old(items)@.push(item)),
{
    let mut i: usize = 0;
    while i < items.len()
        invariant
            i <= items.len(),
            items@ == old(items)@,
            forall|j: int| 0 <= j < i ==> dock_item_key(items@[j]) != dock_item_key(item),
        decreases items.len() - i,
    {
        if items[i].same_as(&item) {
            assert(dock_item_keys(items@)[i as int] == dock_item_key(item));
            return Err(DockAreaError::DuplicateItem(item));
        }
        i = i + 1;
    }
    assert(!dock_item_keys(items@).contains(dock_item_key(item))) by {
        if dock_item_keys(items@).contains(dock_item_key(item)) {
            let k = choose|k: int|
                0 <= k < dock_item_keys(items@).len() && dock_item_keys(items@)[k]
                    == dock_item_key(item);
            assert(dock_item_key(items@[k]) == dock_item_key(item));
        }
    }
    items.push(item);
    Ok(())
}

} // verus!
