use vstd::prelude::*;

verus! {

/// An opaque, generational identifier for a widget node.
///
/// The UI runtime creates these values. The generation distinguishes a newly
/// allocated node from a removed node that reused the same arena slot.
#[derive(Clone, Copy, Debug, PartialEq, Eq, Structural, Hash)]
pub struct WidgetId {
    index: u32,
    generation: u32,
}

impl WidgetId {
    /// The arena slot named by this identifier.
    pub closed spec fn slot(self) -> u32 {
        self.index
    }

    /// The generation of the slot named by this identifier.
    pub closed spec fn gen(self) -> u32 {
        self.generation
    }

    /// The identifier naming `generation` of arena slot `index`.
    pub closed spec fn at(index: u32, generation: u32) -> WidgetId {
        WidgetId { index, generation }
    }

    /// The identifier built from a slot and a generation has those parts.
    pub broadcast proof fn lemma_at_parts(index: u32, generation: u32)
        ensures
            #[trigger] WidgetId::at(index, generation).slot() == index,
            WidgetId::at(index, generation).gen() == generation,
    {
    }

    /// An identifier is determined by its slot and generation.
    pub broadcast proof fn lemma_id_parts(id: WidgetId)
        ensures
            #[trigger] WidgetId::at(id.slot(), id.gen()) == id,
    {
    }

    /// Creates an identifier from arena slot and generation values.
    pub fn new(index: u32, generation: u32) -> (id: Self)
        ensures
            id == WidgetId::at(index, generation),
            id.slot() == index,
            id.gen() == generation,
    {
        Self { index, generation }
    }

    /// Returns the arena slot component.
    pub fn index(self) -> (r: u32)
        ensures
            r == self.slot(),
    {
        self.index
    }

    /// Returns the generation component.
    pub fn generation(self) -> (r: u32)
        ensures
            r == self.gen(),
    {
        self.generation
    }
}

} // verus!
