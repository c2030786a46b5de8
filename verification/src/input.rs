//! Framework-defined input data: pointer buttons, modifiers, and keys.

use vstd::prelude::*;

use crate::id::WidgetId;

verus! {

/// A stable identifier for one pointing-device contact.
#[derive(Clone, Copy, Debug, Default, PartialEq, Eq, Structural, Hash, PartialOrd, Ord)]
pub struct PointerId(pub u64);

/// A pointer button.
#[derive(Clone, Copy, Debug, PartialEq, Eq, Structural, Hash)]
pub enum PointerButton {
    /// The primary pointer button.
    Primary,
    /// The auxiliary pointer button.
    Auxiliary,
    /// The secondary pointer button.
    Secondary,
    /// A platform-specific additional button.
    Other(u16),
}

/// The set of pointer buttons currently pressed, one bit per button.
#[derive(Clone, Copy, Debug, Default, PartialEq, Eq, Structural, Hash)]
pub struct PointerButtons(u16);

impl View for PointerButtons {
    type V = u16;

    closed spec fn view(&self) -> u16 {
        self.0
    }
}

impl PointerButtons {
    /// No pressed buttons.
    pub fn none() -> (r: PointerButtons)
        ensures
            r@ == 0,
    {
        PointerButtons(0)
    }
    /// The primary button.
    pub fn primary() -> (r: PointerButtons)
        ensures
            r@ == 1,
    {
        PointerButtons(1)
    }
    /// The auxiliary button.
    pub fn auxiliary() -> (r: PointerButtons)
        ensures
            r@ == 2,
    {
        PointerButtons(2)
    }
    /// The secondary button.
    pub fn secondary() -> (r: PointerButtons)
        ensures
            r@ == 4,
    {
        PointerButtons(4)
    }

    /// Creates a set from its raw bit representation.
    pub fn from_bits(bits: u16) -> (r: Self)
        ensures
            r@ == bits,
    {
        PointerButtons(bits)
    }

    /// Returns the raw bit representation.
    pub fn bits(self) -> (r: u16)
        ensures
            r == self@,
    {
        self.0
    }

    /// Returns whether no buttons are pressed.
    pub fn is_empty(self) -> (r: bool)
        ensures
            r == (self@ == 0),
    {
        self.0 == 0
    }

    /// Returns whether this set contains all `other` buttons.
    pub fn contains(self, other: Self) -> (r: bool)
        ensures
            r == (self@ & other@ == other@),
    {
        (self.0 & other.0) == other.0
    }

    /// Returns the buttons in either set.
    pub fn union(self, other: Self) -> (r: Self)
        ensures
            r@ == self@ | other@,
    {
        PointerButtons(self.0 | other.0)
    }

    /// Returns the buttons in both sets.
    pub fn intersection(self, other: Self) -> (r: Self)
        ensures
            r@ == self@ & other@,
    {
        PointerButtons(self.0 & other.0)
    }

    /// Returns the buttons not in this set.
    pub fn complement(self) -> (r: Self)
        ensures
            r@ == !self@,
    {
        PointerButtons(!self.0)
    }
}

impl core::ops::BitOr for PointerButtons {
    type Output = Self;

    fn bitor(self, rhs: Self) -> (r: Self)
        ensures
            r@ == self@ | rhs@,
    {
        self.union(rhs)
    }
}


impl vstd::std_specs::ops::BitOrSpecImpl for PointerButtons {
    open spec fn obeys_bitor_spec() -> bool {
        true
    }

    open spec fn bitor_req(self, rhs: PointerButtons) -> bool {
        true
    }

    closed spec fn bitor_spec(self, rhs: PointerButtons) -> PointerButtons {
        PointerButtons(self.0 | rhs.0)
    }
}

impl vstd::std_specs::ops::BitAndSpecImpl for PointerButtons {
    open spec fn obeys_bitand_spec() -> bool {
        true
    }

    open spec fn bitand_req(self, rhs: PointerButtons) -> bool {
        true
    }

    closed spec fn bitand_spec(self, rhs: PointerButtons) -> PointerButtons {
        PointerButtons(self.0 & rhs.0)
    }
}

impl vstd::std_specs::ops::NotSpecImpl for PointerButtons {
    open spec fn obeys_not_spec() -> bool {
        true
    }

    open spec fn not_req(self) -> bool {
        true
    }

    closed spec fn not_spec(self) -> PointerButtons {
        PointerButtons(!self.0)
    }
}

impl core::ops::BitAnd for PointerButtons {
    type Output = Self;

    fn bitand(self, rhs: Self) -> (r: Self)
        ensures
            r@ == self@ & rhs@,
    {
        self.intersection(rhs)
    }
}

impl core::ops::Not for PointerButtons {
    type Output = Self;

    fn not(self) -> (r: Self)
        ensures
            r@ == !self@,
    {
        self.complement()
    }
}

/// A set is contained in its union with any other set, and a union contains
/// both of its parts.
pub proof fn law_union_contains_its_parts(a: u16, b: u16)
    ensures
        (a | b) & a == a,
        (a | b) & b == b,
        a & a == a,
{
    assert((a | b) & a == a) by (bit_vector);
    assert((a | b) & b == b) by (bit_vector);
    assert(a & a == a) by (bit_vector);
}

/// Keyboard modifier state, one bit per modifier.
#[derive(Clone, Copy, Debug, Default, PartialEq, Eq, Structural, Hash)]
pub struct Modifiers(u8);

impl View for Modifiers {
    type V = u8;

    closed spec fn view(&self) -> u8 {
        self.0
    }
}

impl Modifiers {
    /// No modifier keys are pressed.
    pub fn none() -> (r: Modifiers)
        ensures
            r@ == 0,
    {
        Modifiers(0)
    }
    /// Either shift key is pressed.
    pub fn shift() -> (r: Modifiers)
        ensures
            r@ == 1,
    {
        Modifiers(1)
    }
    /// Either control key is pressed.
    pub fn control() -> (r: Modifiers)
        ensures
            r@ == 2,
    {
        Modifiers(2)
    }
    /// Either alt/option key is pressed.
    pub fn alt() -> (r: Modifiers)
        ensures
            r@ == 4,
    {
        Modifiers(4)
    }
    /// Either command/super key is pressed.
    pub fn meta() -> (r: Modifiers)
        ensures
            r@ == 8,
    {
        Modifiers(8)
    }

    /// Creates a modifier state from its raw bit representation.
    pub fn from_bits(bits: u8) -> (r: Self)
        ensures
            r@ == bits,
    {
        Modifiers(bits)
    }

    /// Returns the raw bit representation.
    pub fn bits(self) -> (r: u8)
        ensures
            r == self@,
    {
        self.0
    }

    /// Returns whether this state contains all `other` modifiers.
    pub fn contains(self, other: Self) -> (r: bool)
        ensures
            r == (self@ & other@ == other@),
    {
        (self.0 & other.0) == other.0
    }

    /// Returns whether both states hold exactly the same modifiers.
    pub fn same_as(self, other: Self) -> (r: bool)
        ensures
            r == (self@ == other@),
    {
        self.0 == other.0
    }

    /// Returns the modifiers in either state.
    pub fn union(self, other: Self) -> (r: Self)
        ensures
            r@ == self@ | other@,
    {
        Modifiers(self.0 | other.0)
    }
}

impl core::ops::BitOr for Modifiers {
    type Output = Self;

    fn bitor(self, rhs: Self) -> (r: Self)
        ensures
            r@ == self@ | rhs@,
    {
        self.union(rhs)
    }
}


impl vstd::std_specs::ops::BitOrSpecImpl for Modifiers {
    open spec fn obeys_bitor_spec() -> bool {
        true
    }

    open spec fn bitor_req(self, rhs: Modifiers) -> bool {
        true
    }

    closed spec fn bitor_spec(self, rhs: Modifiers) -> Modifiers {
        Modifiers(self.0 | rhs.0)
    }
}

/// A named non-text key value.
#[derive(Clone, Copy, Debug, PartialEq, Eq, Structural, Hash)]
pub enum NamedKey {
    /// Backspace.
    Backspace,
    /// Enter/return.
    Enter,
    /// Escape.
    Escape,
    /// Tab.
    Tab,
    /// Space.
    Space,
    /// Arrow left.
    ArrowLeft,
    /// Arrow right.
    ArrowRight,
    /// Arrow up.
    ArrowUp,
    /// Arrow down.
    ArrowDown,
    /// Home.
    Home,
    /// End.
    End,
    /// Page up.
    PageUp,
    /// Page down.
    PageDown,
    /// Delete.
    Delete,
}

/// Logical meaning of a key press.
#[derive(Debug, PartialEq, Eq, Hash)]
pub enum Key {
    /// A text-producing key value.
    Character(String),
    /// A named, non-text key.
    Named(NamedKey),
    /// A key the platform could not identify.
    Unidentified,
}

/// The model of a [`Key`].
pub enum KeyView {
    /// A text-producing key with its text.
    Character(Seq<char>),
    /// A named key.
    Named(NamedKey),
    /// An unidentified key.
    Unidentified,
}

impl View for Key {
    type V = KeyView;

    open spec fn view(&self) -> KeyView {
        match self {
            Key::Character(text) => KeyView::Character(text@),
            Key::Named(named) => KeyView::Named(*named),
            Key::Unidentified => KeyView::Unidentified,
        }
    }
}

impl Clone for Key {
    fn clone(&self) -> (r: Self)
        ensures
            r == *self,
    {
        match self {
            Key::Character(text) => Key::Character(text.clone()),
            Key::Named(named) => Key::Named(*named),
            Key::Unidentified => Key::Unidentified,
        }
    }
}

impl Key {
    /// Returns whether both keys have the same meaning.
    pub fn same_as(&self, other: &Key) -> (r: bool)
        ensures
            r == (self@ == other@),
    {
        match (self, other) {
            (Key::Character(a), Key::Character(b)) => a.eq(b),
            (Key::Named(a), Key::Named(b)) => *a == *b,
            (Key::Unidentified, Key::Unidentified) => true,
            _ => false,
        }
    }
}

/// Physical key position, independent of the active keyboard layout.
#[derive(Clone, Copy, Debug, PartialEq, Eq, Structural, Hash)]
pub enum KeyCode {
    /// A physical key identified by the platform.
    Platform(u32),
    /// The physical key could not be identified.
    Unidentified,
}

/// Keyboard event data.
#[derive(Debug, PartialEq, Eq, Hash)]
pub struct KeyEvent {
    /// Logical key meaning.
    pub key: Key,
    /// Physical key position.
    pub code: KeyCode,
    /// Whether this event was produced by key repeat.
    pub repeat: bool,
    /// Keyboard modifiers pressed at the time of the event.
    pub modifiers: Modifiers,
}

impl Clone for KeyEvent {
    fn clone(&self) -> (r: Self)
        ensures
            r == *self,
    {
        KeyEvent {
            key: self.key.clone(),
            code: self.code,
            repeat: self.repeat,
            modifiers: self.modifiers,
        }
    }
}

/// A focus transition in the widget tree.
#[derive(Clone, Copy, Debug, PartialEq, Eq, Structural, Hash)]
pub struct FocusChanged {
    /// Widget receiving focus, or `None` when focus leaves the tree.
    pub focused: Option<WidgetId>,
}

} // verus!
