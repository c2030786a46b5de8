//! The retained widget tree of a UI runtime: a generational arena of nodes
//! with parent and child links, visibility, focus, pointer capture and hover
//! bookkeeping, and a bounded history of diagnostics.
//!
//! The runtime is generic over the widget value `W` that each node owns; it
//! never calls into a widget. Layout, painting and event handling drive the
//! widgets themselves and consult this tree for structure and routing.

use vstd::prelude::*;

use crate::diagnostic::{Diagnostic, DiagnosticView};
use crate::id::WidgetId;
use crate::input::{Key, KeyEvent, NamedKey, PointerId};
use crate::ui::{DirtyFlags, UiRuntimeError};

verus! {

/// How many diagnostics a runtime retains; older ones are discarded first.
pub const MAX_RETAINED_DIAGNOSTICS: usize = 256;

/// A small map from pointers to the widgets that capture or hover them.
///
/// It is an association list rather than a `HashMap`: a runtime tracks only a
/// few pointers at once, and removing a widget must drop every entry that
/// names it. vstd specifies `HashMap` lookups, inserts and removals by key, but
/// not a removal by value such as `retain`, so that step would rest on an
/// unproved contract. Over a list every operation, that one included, is
/// specified by the spec functions below and proved; the type keeps at most
/// one entry per pointer, which is the invariant a map would give.
pub struct PointerTargets {
    entries: Vec<(PointerId, WidgetId)>,
}

/// Whether no pointer occurs twice among `entries`.
pub open spec fn pointers_distinct(entries: Seq<(PointerId, WidgetId)>) -> bool {
    forall|i: int, j: int|
        0 <= i < entries.len() && 0 <= j < entries.len() && i != j ==> #[trigger] entries[i].0
            != #[trigger] entries[j].0
}

/// The widget recorded for `pointer` in `entries`, if any.
pub open spec fn target_of(entries: Seq<(PointerId, WidgetId)>, pointer: PointerId) -> Option<
    WidgetId,
>
    decreases entries.len(),
{
    if entries.len() == 0 {
        None
    } else if entries.last().0 == pointer {
        Some(entries.last().1)
    } else {
        target_of(entries.drop_last(), pointer)
    }
}

/// The entries after recording `widget` for `pointer`: an existing entry for
/// the pointer is replaced in place, otherwise the pair is appended.
pub open spec fn with_target(
    entries: Seq<(PointerId, WidgetId)>,
    pointer: PointerId,
    widget: WidgetId,
) -> Seq<(PointerId, WidgetId)> {
    match position_of(entries, pointer) {
        Some(i) => entries.update(i, (pointer, widget)),
        None => entries.push((pointer, widget)),
    }
}

/// The position of the entry for `pointer`, if any.
pub open spec fn position_of(entries: Seq<(PointerId, WidgetId)>, pointer: PointerId) -> Option<
    int,
>
    decreases entries.len(),
{
    if entries.len() == 0 {
        None
    } else if entries.last().0 == pointer {
        Some(entries.len() - 1)
    } else {
        position_of(entries.drop_last(), pointer)
    }
}

/// `entries` without the entry for `pointer`.
pub open spec fn without_pointer(entries: Seq<(PointerId, WidgetId)>, pointer: PointerId) -> Seq<
    (PointerId, WidgetId),
>
    decreases entries.len(),
{
    if entries.len() == 0 {
        entries
    } else if entries.last().0 == pointer {
        without_pointer(entries.drop_last(), pointer)
    } else {
        without_pointer(entries.drop_last(), pointer).push(entries.last())
    }
}

/// `entries` without the entries that name `widget`.
pub open spec fn without_widget(entries: Seq<(PointerId, WidgetId)>, widget: WidgetId) -> Seq<
    (PointerId, WidgetId),
>
    decreases entries.len(),
{
    if entries.len() == 0 {
        entries
    } else if entries.last().1 == widget {
        without_widget(entries.drop_last(), widget)
    } else {
        without_widget(entries.drop_last(), widget).push(entries.last())
    }
}

proof fn lemma_target_after_update(
    entries: Seq<(PointerId, WidgetId)>,
    i: int,
    pointer: PointerId,
    widget: WidgetId,
    other: PointerId,
)
    requires
        position_of(entries, pointer) == Some(i),
    ensures
        target_of(entries.update(i, (pointer, widget)), other) == if other == pointer {
            Some(widget)
        } else {
            target_of(entries, other)
        },
    decreases entries.len(),
{
    lemma_position_of(entries, pointer);
    let updated = entries.update(i, (pointer, widget));
    if i == entries.len() - 1 {
        assert(updated.drop_last() =~= entries.drop_last());
    } else {
        assert(entries.last().0 != pointer);
        assert(updated.last() == entries.last());
        assert(updated.drop_last() =~= entries.drop_last().update(i, (pointer, widget)));
        lemma_target_after_update(entries.drop_last(), i, pointer, widget, other);
    }
}

proof fn lemma_target_without_pointer(
    entries: Seq<(PointerId, WidgetId)>,
    pointer: PointerId,
    other: PointerId,
)
    ensures
        target_of(without_pointer(entries, pointer), other) == if other == pointer {
            None
        } else {
            target_of(entries, other)
        },
    decreases entries.len(),
{
    if entries.len() > 0 {
        lemma_target_without_pointer(entries.drop_last(), pointer, other);
        if entries.last().0 != pointer {
            let kept = without_pointer(entries.drop_last(), pointer);
            assert(kept.push(entries.last()).drop_last() =~= kept);
        }
    }
}

/// Every entry left after forgetting a widget was an entry before.
proof fn lemma_without_widget_subset(
    entries: Seq<(PointerId, WidgetId)>,
    widget: WidgetId,
    k: int,
)
    requires
        0 <= k < without_widget(entries, widget).len(),
    ensures
        entries.contains(without_widget(entries, widget)[k]),
    decreases entries.len(),
{
    let rest = entries.drop_last();
    let kept = without_widget(rest, widget);
    if entries.last().1 == widget {
        lemma_without_widget_subset(rest, widget, k);
        let j = choose|j: int| 0 <= j < rest.len() && rest[j] == kept[k];
        assert(entries[j] == rest[j]);
    } else if k < kept.len() {
        assert(kept.push(entries.last())[k] == kept[k]);
        lemma_without_widget_subset(rest, widget, k);
        let j = choose|j: int| 0 <= j < rest.len() && rest[j] == kept[k];
        assert(entries[j] == rest[j]);
    } else {
        assert(entries[entries.len() - 1] == entries.last());
    }
}

/// Every entry left after forgetting a pointer was an entry before.
proof fn lemma_without_pointer_subset(
    entries: Seq<(PointerId, WidgetId)>,
    pointer: PointerId,
    k: int,
)
    requires
        0 <= k < without_pointer(entries, pointer).len(),
    ensures
        entries.contains(without_pointer(entries, pointer)[k]),
    decreases entries.len(),
{
    let rest = entries.drop_last();
    let kept = without_pointer(rest, pointer);
    if entries.last().0 == pointer {
        lemma_without_pointer_subset(rest, pointer, k);
        let j = choose|j: int| 0 <= j < rest.len() && rest[j] == kept[k];
        assert(entries[j] == rest[j]);
    } else if k < kept.len() {
        assert(kept.push(entries.last())[k] == kept[k]);
        lemma_without_pointer_subset(rest, pointer, k);
        let j = choose|j: int| 0 <= j < rest.len() && rest[j] == kept[k];
        assert(entries[j] == rest[j]);
    } else {
        assert(entries[entries.len() - 1] == entries.last());
    }
}

proof fn lemma_distinct_drop_last(entries: Seq<(PointerId, WidgetId)>)
    requires
        pointers_distinct(entries),
        entries.len() > 0,
    ensures
        pointers_distinct(entries.drop_last()),
        forall|k: int| 0 <= k < entries.len() - 1 ==> #[trigger] entries[k].0 != entries.last().0,
{
    let rest = entries.drop_last();
    assert forall|i: int, j: int|
        0 <= i < rest.len() && 0 <= j < rest.len() && i != j implies #[trigger] rest[i].0
        != #[trigger] rest[j].0 by {
        assert(rest[i] == entries[i] && rest[j] == entries[j]);
    }
    assert forall|k: int| 0 <= k < entries.len() - 1 implies #[trigger] entries[k].0
        != entries.last().0 by {
        assert(entries[entries.len() - 1] == entries.last());
    }
}

proof fn lemma_target_without_widget(
    entries: Seq<(PointerId, WidgetId)>,
    widget: WidgetId,
    pointer: PointerId,
)
    requires
        pointers_distinct(entries),
    ensures
        target_of(without_widget(entries, widget), pointer) == if target_of(entries, pointer)
            == Some(widget) {
            None
        } else {
            target_of(entries, pointer)
        },
    decreases entries.len(),
{
    if entries.len() > 0 {
        let rest = entries.drop_last();
        lemma_distinct_drop_last(entries);
        lemma_target_without_widget(rest, widget, pointer);
        let kept = without_widget(rest, widget);
        if entries.last().1 != widget {
            assert(kept.push(entries.last()).drop_last() =~= kept);
        }
        if entries.last().0 == pointer {
            lemma_position_of(rest, pointer);
            if let Some(i) = position_of(rest, pointer) {
                assert(rest[i] == entries[i]);
            }
        }
    }
}

proof fn lemma_without_widget_distinct(entries: Seq<(PointerId, WidgetId)>, widget: WidgetId)
    requires
        pointers_distinct(entries),
    ensures
        pointers_distinct(without_widget(entries, widget)),
    decreases entries.len(),
{
    if entries.len() > 0 {
        let rest = entries.drop_last();
        lemma_distinct_drop_last(entries);
        lemma_without_widget_distinct(rest, widget);
        let kept = without_widget(rest, widget);
        if entries.last().1 != widget {
            let t = kept.push(entries.last());
            assert forall|i: int, j: int|
                0 <= i < t.len() && 0 <= j < t.len() && i != j implies #[trigger] t[i].0
                != #[trigger] t[j].0 by {
                if i == kept.len() || j == kept.len() {
                    let k = if i == kept.len() { j } else { i };
                    lemma_without_widget_subset(rest, widget, k);
                    let m = choose|m: int| 0 <= m < rest.len() && rest[m] == kept[k];
                    assert(rest[m] == entries[m]);
                    assert(t[k] == kept[k]);
                } else {
                    assert(t[i] == kept[i] && t[j] == kept[j]);
                }
            }
        }
    }
}

proof fn lemma_without_pointer_distinct(entries: Seq<(PointerId, WidgetId)>, pointer: PointerId)
    requires
        pointers_distinct(entries),
    ensures
        pointers_distinct(without_pointer(entries, pointer)),
    decreases entries.len(),
{
    if entries.len() > 0 {
        let rest = entries.drop_last();
        lemma_distinct_drop_last(entries);
        lemma_without_pointer_distinct(rest, pointer);
        let kept = without_pointer(rest, pointer);
        if entries.last().0 != pointer {
            let t = kept.push(entries.last());
            assert forall|i: int, j: int|
                0 <= i < t.len() && 0 <= j < t.len() && i != j implies #[trigger] t[i].0
                != #[trigger] t[j].0 by {
                if i == kept.len() || j == kept.len() {
                    let k = if i == kept.len() { j } else { i };
                    lemma_without_pointer_subset(rest, pointer, k);
                    let m = choose|m: int| 0 <= m < rest.len() && rest[m] == kept[k];
                    assert(rest[m] == entries[m]);
                    assert(t[k] == kept[k]);
                } else {
                    assert(t[i] == kept[i] && t[j] == kept[j]);
                }
            }
        }
    }
}

/// A pointer map read back: after recording a widget for a pointer, the
/// pointer maps to that widget; after forgetting a pointer, it maps to
/// nothing; after forgetting a widget, no pointer maps to it; and every other
/// pointer keeps its entry. Recording and forgetting keep at most one entry
/// per pointer.
pub proof fn law_pointer_targets_read_back_what_was_written(
    entries: Seq<(PointerId, WidgetId)>,
    pointer: PointerId,
    other: PointerId,
    widget: WidgetId,
)
    ensures
        target_of(with_target(entries, pointer, widget), pointer) == Some(widget),
        other != pointer ==> target_of(with_target(entries, pointer, widget), other) == target_of(
            entries,
            other,
        ),
        target_of(without_pointer(entries, pointer), pointer) is None,
        other != pointer ==> target_of(without_pointer(entries, pointer), other) == target_of(
            entries,
            other,
        ),
        pointers_distinct(entries) ==> target_of(without_widget(entries, widget), other) == if target_of(
            entries,
            other,
        ) == Some(widget) {
            None
        } else {
            target_of(entries, other)
        },
        pointers_distinct(entries) ==> pointers_distinct(with_target(entries, pointer, widget)),
        pointers_distinct(entries) ==> pointers_distinct(without_pointer(entries, pointer)),
        pointers_distinct(entries) ==> pointers_distinct(without_widget(entries, widget)),
{
    lemma_position_of(entries, pointer);
    match position_of(entries, pointer) {
        Some(i) => {
            lemma_target_after_update(entries, i, pointer, widget, pointer);
            lemma_target_after_update(entries, i, pointer, widget, other);
        },
        None => {
            assert(entries.push((pointer, widget)).drop_last() =~= entries);
        },
    }
    lemma_target_without_pointer(entries, pointer, pointer);
    lemma_target_without_pointer(entries, pointer, other);
    if pointers_distinct(entries) {
        lemma_target_without_widget(entries, widget, other);
        let t = with_target(entries, pointer, widget);
        assert forall|i: int, j: int|
            0 <= i < t.len() && 0 <= j < t.len() && i != j implies #[trigger] t[i].0
            != #[trigger] t[j].0 by {
            if i < entries.len() && j < entries.len() {
                assert(t[i].0 == entries[i].0 && t[j].0 == entries[j].0);
            }
        }
        lemma_without_pointer_distinct(entries, pointer);
        lemma_without_widget_distinct(entries, widget);
    }
}

impl View for PointerTargets {
    type V = Seq<(PointerId, WidgetId)>;

    closed spec fn view(&self) -> Seq<(PointerId, WidgetId)> {
        self.entries@
    }
}

proof fn lemma_position_of(entries: Seq<(PointerId, WidgetId)>, pointer: PointerId)
    ensures
        match position_of(entries, pointer) {
            Some(i) => 0 <= i < entries.len() && entries[i].0 == pointer && target_of(
                entries,
                pointer,
            ) == Some(entries[i].1),
            None => target_of(entries, pointer) is None && forall|k: int|
                0 <= k < entries.len() ==> #[trigger] entries[k].0 != pointer,
        },
    decreases entries.len(),
{
    if entries.len() > 0 {
        lemma_position_of(entries.drop_last(), pointer);
        if entries.last().0 != pointer {
            match position_of(entries.drop_last(), pointer) {
                Some(i) => {
                    assert(entries[i] == entries.drop_last()[i]);
                },
                None => {
                    assert forall|k: int| 0 <= k < entries.len() implies #[trigger] entries[k].0
                        != pointer by {
                        if k < entries.len() - 1 {
                            assert(entries[k] == entries.drop_last()[k]);
                        }
                    }
                },
            }
        }
    }
}

impl PointerTargets {
    /// The map keeps at most one entry per pointer.
    #[verifier::type_invariant]
    spec fn one_entry_per_pointer(self) -> bool {
        pointers_distinct(self.entries@)
    }

    /// An empty map.
    pub fn new() -> (r: Self)
        ensures
            r@ == Seq::<(PointerId, WidgetId)>::empty(),
            pointers_distinct(r@),
    {
        PointerTargets { entries: Vec::new() }
    }

    /// The widget recorded for `pointer`, if any.
    pub fn get(&self, pointer: PointerId) -> (r: Option<WidgetId>)
        ensures
            r == target_of(self@, pointer),
    {
        let mut i = self.entries.len();
        assert(self.entries@.take(i as int) =~= self.entries@);
        while i > 0
            invariant
                i <= self.entries@.len(),
                target_of(self.entries@, pointer) == target_of(self.entries@.take(i as int), pointer),
            decreases i,
        {
            let entry = self.entries[i - 1];
            assert(self.entries@.take(i as int).drop_last() =~= self.entries@.take(i - 1));
            if entry.0 == pointer {
                return Some(entry.1);
            }
            i = i - 1;
        }
        None
    }

    fn find(&self, pointer: PointerId) -> (r: Option<usize>)
        ensures
            match r {
                Some(i) => Some(i as int) == position_of(self@, pointer),
                None => position_of(self@, pointer) is None,
            },
    {
        let mut i = self.entries.len();
        assert(self.entries@.take(i as int) =~= self.entries@);
        while i > 0
            invariant
                i <= self.entries@.len(),
                position_of(self.entries@, pointer) == position_of(
                    self.entries@.take(i as int),
                    pointer,
                ),
            decreases i,
        {
            assert(self.entries@.take(i as int).drop_last() =~= self.entries@.take(i - 1));
            if self.entries[i - 1].0 == pointer {
                return Some(i - 1);
            }
            i = i - 1;
        }
        None
    }

    /// Records `widget` for `pointer`, replacing an earlier entry.
    pub fn insert(&mut self, pointer: PointerId, widget: WidgetId)
        ensures
            final(self)@ == with_target(old(self)@, pointer, widget),
            pointers_distinct(final(self)@),
    {
        proof {
            use_type_invariant(&*self);
            lemma_position_of(self@, pointer);
            law_pointer_targets_read_back_what_was_written(self@, pointer, pointer, widget);
        }
        let position = self.find(pointer);
        let mut entries: Vec<(PointerId, WidgetId)> = Vec::new();
        std::mem::swap(&mut entries, &mut self.entries);
        match position {
            Some(i) => {
                entries.set(i, (pointer, widget));
            },
            None => {
                entries.push((pointer, widget));
            },
        }
        self.entries = entries;
    }

    /// Forgets the entry for `pointer`.
    pub fn remove(&mut self, pointer: PointerId)
        ensures
            final(self)@ == without_pointer(old(self)@, pointer),
            pointers_distinct(final(self)@),
    {
        proof {
            use_type_invariant(&*self);
            lemma_without_pointer_distinct(self@, pointer);
        }
        let mut kept: Vec<(PointerId, WidgetId)> = Vec::new();
        let mut i: usize = 0;
        while i < self.entries.len()
            invariant
                i <= self.entries@.len(),
                kept@ == without_pointer(self.entries@.take(i as int), pointer),
            decreases self.entries@.len() - i,
        {
            let entry = self.entries[i];
            proof {
                assert(self.entries@.take(i + 1).drop_last() =~= self.entries@.take(i as int));
            }
            if entry.0 != pointer {
                kept.push(entry);
            }
            i = i + 1;
        }
        proof {
            assert(self.entries@.take(i as int) =~= self.entries@);
        }
        self.entries = kept;
    }

    /// Forgets every entry that names `widget`.
    pub fn forget_widget(&mut self, widget: WidgetId)
        ensures
            final(self)@ == without_widget(old(self)@, widget),
            pointers_distinct(final(self)@),
    {
        proof {
            use_type_invariant(&*self);
            lemma_without_widget_distinct(self@, widget);
        }
        let mut kept: Vec<(PointerId, WidgetId)> = Vec::new();
        let mut i: usize = 0;
        while i < self.entries.len()
            invariant
                i <= self.entries@.len(),
                kept@ == without_widget(self.entries@.take(i as int), widget),
            decreases self.entries@.len() - i,
        {
            let entry = self.entries[i];
            proof {
                assert(self.entries@.take(i + 1).drop_last() =~= self.entries@.take(i as int));
            }
            if entry.1 != widget {
                kept.push(entry);
            }
            i = i + 1;
        }
        proof {
            assert(self.entries@.take(i as int) =~= self.entries@);
        }
        self.entries = kept;
    }

    /// Forgets every entry.
    pub fn clear(&mut self)
        ensures
            final(self)@ == Seq::<(PointerId, WidgetId)>::empty(),
            pointers_distinct(final(self)@),
    {
        self.entries = Vec::new();
    }
}

impl Clone for PointerTargets {
    fn clone(&self) -> (r: Self)
        ensures
            r@ == self@,
            pointers_distinct(r@),
    {
        proof {
            use_type_invariant(self);
        }
        let mut entries: Vec<(PointerId, WidgetId)> = Vec::new();
        let mut i: usize = 0;
        while i < self.entries.len()
            invariant
                i <= self.entries@.len(),
                entries@ == self.entries@.take(i as int),
            decreases self.entries@.len() - i,
        {
            entries.push(self.entries[i]);
            i = i + 1;
            assert(entries@ =~= self.entries@.take(i as int));
        }
        assert(self.entries@.take(i as int) =~= self.entries@);
        PointerTargets { entries }
    }
}


/// The model of one widget node.
#[verifier::ext_equal]
pub struct WidgetNodeView<W> {
    /// The widget value the node owns.
    pub widget: W,
    /// The parent node; only the root has none.
    pub parent: Option<WidgetId>,
    /// Direct children in display order.
    pub children: Seq<WidgetId>,
    /// Whether the last layout of the parent showed this node.
    pub visible: bool,
    /// Pending invalidation.
    pub dirty: DirtyFlags,
    /// Whether the widget takes keyboard focus.
    pub accepts_focus: bool,
}

/// The model of one arena slot.
#[verifier::ext_equal]
pub struct SlotView<W> {
    /// The generation an identifier must carry to name this slot.
    pub generation: u32,
    /// The node stored in the slot, if the slot is occupied.
    pub node: Option<WidgetNodeView<W>>,
}

/// The model of a runtime.
#[verifier::ext_equal]
pub struct RuntimeView<W> {
    /// The arena, indexed by slot.
    pub slots: Seq<SlotView<W>>,
    /// Vacated slots that can be reused, the next one last.
    pub free: Seq<u32>,
    /// The root node.
    pub root: WidgetId,
    /// The node receiving keyboard input.
    pub focused: Option<WidgetId>,
    /// Pointer capture.
    pub captures: Seq<(PointerId, WidgetId)>,
    /// The node under each pointer.
    pub hovered: Seq<(PointerId, WidgetId)>,
    /// Retained diagnostics, oldest first.
    pub diagnostics: Seq<DiagnosticView>,
    /// Whether another frame was requested.
    pub redraw: bool,
}

impl<W> RuntimeView<W> {
    /// Whether `id` names an occupied slot with its current generation.
    pub open spec fn live(self, id: WidgetId) -> bool {
        &&& id.slot() < self.slots.len()
        &&& self.slots[id.slot() as int].generation == id.gen()
        &&& self.slots[id.slot() as int].node is Some
    }

    /// The node named by `id`; meaningful when `id` is live.
    pub open spec fn node(self, id: WidgetId) -> WidgetNodeView<W> {
        self.slots[id.slot() as int].node->0
    }

    /// The identifier of the node in slot `index`.
    pub open spec fn id_at(self, index: int) -> WidgetId {
        WidgetId::at(index as u32, self.slots[index].generation)
    }
}

/// Vacated slots are in range and empty, and each appears once.
pub open spec fn vacancies_ok<W>(v: RuntimeView<W>) -> bool {
    &&& v.free.no_duplicates()
    &&& forall|k: int|
        0 <= k < v.free.len() ==> {
            &&& #[trigger] v.free[k] < v.slots.len()
            &&& v.slots[v.free[k] as int].node is None
        }
}

/// The nodes of the subtree rooted at `id`, children before their parent
/// and siblings in display order, following at most `fuel` levels.
pub open spec fn subtree_order<W>(v: RuntimeView<W>, id: WidgetId, fuel: nat) -> Seq<WidgetId>
    decreases fuel, 0nat, 0nat,
{
    if fuel == 0 || !v.live(id) {
        Seq::empty()
    } else {
        children_order(v, v.node(id).children, (fuel - 1) as nat).push(id)
    }
}

/// The subtrees of `children`, one after another.
pub open spec fn children_order<W>(v: RuntimeView<W>, children: Seq<WidgetId>, fuel: nat) -> Seq<
    WidgetId,
>
    decreases fuel, 1nat, children.len(),
{
    if children.len() == 0 {
        Seq::empty()
    } else {
        children_order(v, children.drop_last(), fuel) + subtree_order(v, children.last(), fuel)
    }
}

/// `ids` without `id`.
pub open spec fn without_id(ids: Seq<WidgetId>, id: WidgetId) -> Seq<WidgetId>
    decreases ids.len(),
{
    if ids.len() == 0 {
        ids
    } else if ids.last() == id {
        without_id(ids.drop_last(), id)
    } else {
        without_id(ids.drop_last(), id).push(ids.last())
    }
}

/// The runtime after removing live, non-root `id` from its parent's
/// children.
pub open spec fn detached<W>(v: RuntimeView<W>, id: WidgetId) -> RuntimeView<W> {
    let p = v.node(id).parent->0;
    let n = v.node(p);
    RuntimeView {
        slots: v.slots.update(
            p.slot() as int,
            SlotView {
                generation: p.gen(),
                node: Some(WidgetNodeView { children: without_id(n.children, id), ..n }),
            },
        ),
        ..v
    }
}

/// The runtime after vacating the slot of `id`: the slot is emptied, its
/// generation advances unless exhausted (then the slot is retired instead
/// of reused), and focus, pointer capture and hover on `id` are dropped.
pub open spec fn vacated<W>(v: RuntimeView<W>, id: WidgetId) -> RuntimeView<W> {
    let i = id.slot() as int;
    let g = v.slots[i].generation;
    let emptied = if i < v.slots.len() && v.slots[i].node is Some {
        RuntimeView {
            slots: v.slots.update(
                i,
                SlotView {
                    generation: if g < u32::MAX {
                        (g + 1) as u32
                    } else {
                        g
                    },
                    node: None,
                },
            ),
            free: if g < u32::MAX {
                v.free.push(id.slot())
            } else {
                v.free
            },
            ..v
        }
    } else {
        v
    };
    RuntimeView {
        captures: without_widget(emptied.captures, id),
        hovered: without_widget(emptied.hovered, id),
        focused: if emptied.focused == Some(id) {
            None
        } else {
            emptied.focused
        },
        ..emptied
    }
}

/// The runtime after vacating the slots of `ids`, in order.
pub open spec fn vacated_all<W>(v: RuntimeView<W>, ids: Seq<WidgetId>) -> RuntimeView<W>
    decreases ids.len(),
{
    if ids.len() == 0 {
        v
    } else {
        vacated(vacated_all(v, ids.drop_last()), ids.last())
    }
}

/// Whether some identifier in `ids` names slot `i`.
pub open spec fn hits(ids: Seq<WidgetId>, i: int) -> bool {
    exists|k: int| 0 <= k < ids.len() && #[trigger] ids[k].slot() == i
}

proof fn lemma_without_id(ids: Seq<WidgetId>, id: WidgetId)
    ensures
        forall|x: WidgetId| #[trigger] without_id(ids, id).contains(x) <==> (ids.contains(x) && x != id),
        ids.no_duplicates() ==> without_id(ids, id).no_duplicates(),
    decreases ids.len(),
{
    if ids.len() > 0 {
        let rest = ids.drop_last();
        lemma_without_id(rest, id);
        assert forall|x: WidgetId| ids.contains(x) <==> (rest.contains(x) || x == ids.last()) by {
            if ids.contains(x) {
                let k = choose|k: int| 0 <= k < ids.len() && ids[k] == x;
                if k < ids.len() - 1 {
                    assert(rest[k] == x);
                }
            }
            if rest.contains(x) {
                let k = choose|k: int| 0 <= k < rest.len() && rest[k] == x;
                assert(ids[k] == x);
            }
            if x == ids.last() {
                assert(ids[ids.len() - 1] == x);
            }
        }
        let w = without_id(rest, id);
        if ids.last() != id {
            assert forall|x: WidgetId| w.push(ids.last()).contains(x) <==> (w.contains(x) || x
                == ids.last()) by {
                if w.push(ids.last()).contains(x) {
                    let k = choose|k: int| 0 <= k < w.push(ids.last()).len() && w.push(ids.last())[k] == x;
                    if k < w.len() {
                        assert(w[k] == x);
                    }
                }
                if w.contains(x) {
                    let k = choose|k: int| 0 <= k < w.len() && w[k] == x;
                    assert(w.push(ids.last())[k] == x);
                }
                if x == ids.last() {
                    assert(w.push(ids.last())[w.len() as int] == x);
                }
            }
        }
        assert forall|x: WidgetId| #[trigger] without_id(ids, id).contains(x) <==> (ids.contains(x)
            && x != id) by {
            assert(rest.contains(x) ==> without_id(rest, id).contains(x) || x == id);
            assert(without_id(rest, id).contains(x) ==> rest.contains(x) && x != id);
        }
        if ids.no_duplicates() {
            assert(rest.no_duplicates()) by {
                assert forall|a: int, b: int| 0 <= a < rest.len() && 0 <= b < rest.len() && a != b implies rest[a] != rest[b] by {
                    assert(ids[a] == rest[a] && ids[b] == rest[b]);
                }
            }
            if ids.last() != id {
                assert(!rest.contains(ids.last())) by {
                    if rest.contains(ids.last()) {
                        let k = choose|k: int| 0 <= k < rest.len() && rest[k] == ids.last();
                        assert(ids[k] == ids[ids.len() - 1]);
                    }
                }
                assert(!w.contains(ids.last()));
                let wp = w.push(ids.last());
                assert forall|a: int, b: int| 0 <= a < wp.len() && 0 <= b < wp.len() && a != b implies wp[a] != wp[b] by {
                    if a < w.len() && b < w.len() {
                        assert(wp[a] == w[a] && wp[b] == w[b]);
                    } else if a < w.len() {
                        assert(wp[a] == w[a]);
                    } else if b < w.len() {
                        assert(wp[b] == w[b]);
                    }
                }
            }
        }
    }
}

proof fn lemma_vacated_all<W>(v: RuntimeView<W>, ids: Seq<WidgetId>)
    ensures
        vacated_all(v, ids).slots.len() == v.slots.len(),
        vacated_all(v, ids).root == v.root,
        vacated_all(v, ids).diagnostics == v.diagnostics,
        vacated_all(v, ids).redraw == v.redraw,
        forall|i: int|
            0 <= i < v.slots.len() && !hits(ids, i) ==> #[trigger] vacated_all(v, ids).slots[i]
                == v.slots[i],
        forall|i: int|
            0 <= i < v.slots.len() && hits(ids, i) ==> (#[trigger] vacated_all(v, ids).slots[i]).node is None,
        vacancies_ok(v) ==> vacancies_ok(vacated_all(v, ids)),
    decreases ids.len(),
{
    if ids.len() > 0 {
        let rest = ids.drop_last();
        let x = ids.last();
        lemma_vacated_all(v, rest);
        let u = vacated_all(v, rest);
        let r = vacated(u, x);
        assert forall|i: int| 0 <= i < v.slots.len() && !hits(ids, i) implies #[trigger] r.slots[i] == v.slots[i] by {
            assert(!hits(rest, i)) by {
                if hits(rest, i) {
                    let k = choose|k: int| 0 <= k < rest.len() && #[trigger] rest[k].slot() == i;
                    assert(ids[k].slot() == i);
                }
            }
            assert(x.slot() != i) by {
                if x.slot() == i {
                    assert(ids[ids.len() - 1].slot() == i);
                }
            }
        }
        assert forall|i: int| 0 <= i < v.slots.len() && hits(ids, i) implies (#[trigger] r.slots[i]).node is None by {
            let k = choose|k: int| 0 <= k < ids.len() && #[trigger] ids[k].slot() == i;
            if k < ids.len() - 1 {
                assert(rest[k].slot() == i);
                assert(hits(rest, i));
            }
        }
        if vacancies_ok(v) {
            assert(vacancies_ok(r)) by {
                let i = x.slot() as int;
                if i < u.slots.len() && u.slots[i].node is Some {
                    assert(!u.free.contains(x.slot())) by {
                        if u.free.contains(x.slot()) {
                            let k = choose|k: int| 0 <= k < u.free.len() && u.free[k] == x.slot();
                            assert(u.slots[u.free[k] as int].node is None);
                        }
                    }
                    assert forall|k: int| 0 <= k < r.free.len() implies {
                        &&& #[trigger] r.free[k] < r.slots.len()
                        &&& r.slots[r.free[k] as int].node is None
                    } by {
                        if k < u.free.len() {
                            assert(r.free[k] == u.free[k]);
                        }
                    }
                    assert(r.free.no_duplicates()) by {
                        assert forall|a: int, b: int| 0 <= a < r.free.len() && 0 <= b < r.free.len() && a != b implies r.free[a] != r.free[b] by {
                            if a < u.free.len() && b < u.free.len() {
                                assert(r.free[a] == u.free[a] && r.free[b] == u.free[b]);
                            } else if a < u.free.len() {
                                assert(r.free[a] == u.free[a]);
                            } else if b < u.free.len() {
                                assert(r.free[b] == u.free[b]);
                            }
                        }
                    }
                }
            }
        }
    }
}

proof fn lemma_children_order_member<W>(
    v: RuntimeView<W>,
    children: Seq<WidgetId>,
    fuel: nat,
    x: WidgetId,
)
    ensures
        children_order(v, children, fuel).contains(x) <==> exists|k: int|
            0 <= k < children.len() && #[trigger] subtree_order(v, children[k], fuel).contains(x),
    decreases children.len(),
{
    if children.len() > 0 {
        let rest = children.drop_last();
        lemma_children_order_member(v, rest, fuel, x);
        let a = children_order(v, rest, fuel);
        let b = subtree_order(v, children.last(), fuel);
        assert((a + b).contains(x) <==> a.contains(x) || b.contains(x)) by {
            if (a + b).contains(x) {
                let k = choose|k: int| 0 <= k < (a + b).len() && (a + b)[k] == x;
                if k < a.len() {
                    assert(a[k] == x);
                } else {
                    assert(b[k - a.len()] == x);
                }
            }
            if a.contains(x) {
                let k = choose|k: int| 0 <= k < a.len() && a[k] == x;
                assert((a + b)[k] == x);
            }
            if b.contains(x) {
                let k = choose|k: int| 0 <= k < b.len() && b[k] == x;
                assert((a + b)[a.len() + k] == x);
            }
        }
        if a.contains(x) {
            let k = choose|k: int| 0 <= k < rest.len() && #[trigger] subtree_order(v, rest[k], fuel).contains(x);
            assert(children[k] == rest[k]);
        }
        if b.contains(x) {
            assert(children[children.len() - 1] == children.last());
        }
        if exists|k: int| 0 <= k < children.len() && #[trigger] subtree_order(v, children[k], fuel).contains(x) {
            let k = choose|k: int| 0 <= k < children.len() && #[trigger] subtree_order(v, children[k], fuel).contains(x);
            if k < children.len() - 1 {
                assert(rest[k] == children[k]);
            }
        }
    }
}

/// `id`, then its ancestors, following at most `fuel` links. The walk stops
/// at a stale node.
pub open spec fn ancestry<W>(v: RuntimeView<W>, id: WidgetId, fuel: nat) -> Seq<WidgetId>
    decreases fuel,
{
    if fuel <= 1 || !v.live(id) || v.node(id).parent is None {
        seq![id]
    } else {
        seq![id] + ancestry(v, v.node(id).parent->0, (fuel - 1) as nat)
    }
}

proof fn lemma_ancestry_head<W>(v: RuntimeView<W>, id: WidgetId, fuel: nat)
    ensures
        ancestry(v, id, fuel).len() >= 1,
        ancestry(v, id, fuel)[0] == id,
{
}

/// Whether `id` is live and shown by its parent's last layout.
pub open spec fn shown_at<W>(v: RuntimeView<W>, id: WidgetId) -> bool {
    v.live(id) && v.node(id).visible
}

/// Whether every node of `ids` is live and shown.
pub open spec fn all_shown<W>(v: RuntimeView<W>, ids: Seq<WidgetId>) -> bool {
    forall|k: int| 0 <= k < ids.len() ==> shown_at(v, #[trigger] ids[k])
}

/// The visible nodes of the subtree at `id` that take focus, depth first,
/// skipping hidden subtrees, following at most `fuel` levels.
pub open spec fn focus_order<W>(v: RuntimeView<W>, id: WidgetId, fuel: nat) -> Seq<WidgetId>
    decreases fuel, 0nat, 0nat,
{
    if fuel == 0 || !v.live(id) || !v.node(id).visible {
        Seq::empty()
    } else {
        (if v.node(id).accepts_focus {
            seq![id]
        } else {
            Seq::empty()
        }) + focus_children(v, v.node(id).children, (fuel - 1) as nat)
    }
}

/// The focus order of `children`, one subtree after another.
pub open spec fn focus_children<W>(v: RuntimeView<W>, children: Seq<WidgetId>, fuel: nat) -> Seq<
    WidgetId,
>
    decreases fuel, 1nat, children.len(),
{
    if children.len() == 0 {
        Seq::empty()
    } else {
        focus_children(v, children.drop_last(), fuel) + focus_order(v, children.last(), fuel)
    }
}

/// Where keyboard navigation moves focus among `cycle`: forward to the next
/// node, backward to the previous one, wrapping around; from outside the
/// cycle, to its first node.
pub open spec fn tab_target(cycle: Seq<WidgetId>, focused: Option<WidgetId>, backward: bool) -> Option<
    WidgetId,
> {
    if cycle.len() == 0 {
        None
    } else {
        let current = match focused {
            Some(f) => cycle.index_of_first(f),
            None => None,
        };
        let index = match current {
            Some(i) => if !backward {
                (i + 1) % (cycle.len() as int)
            } else if i == 0 {
                cycle.len() - 1
            } else {
                i - 1
            },
            None => 0,
        };
        Some(cycle[index])
    }
}

fn position_in(ids: &[WidgetId], id: WidgetId) -> (r: Option<usize>)
    ensures
        match r {
            Some(i) => ids@.index_of_first(id) == Some(i as int),
            None => ids@.index_of_first(id) is None,
        },
{
    proof {
        ids@.index_of_first_ensures(id);
    }
    let mut k: usize = 0;
    while k < ids.len()
        invariant
            k <= ids@.len(),
            forall|j: int| 0 <= j < k ==> ids@[j] != id,
        decreases ids@.len() - k,
    {
        if ids[k] == id {
            proof {
                ids@.index_of_first_ensures(id);
                assert(ids@[k as int] == id);
                assert(ids@.contains(id));
                match ids@.index_of_first(id) {
                    Some(j) => {
                        assert(j == k as int);
                    },
                    None => {},
                }
            }
            return Some(k);
        }
        k = k + 1;
    }
    proof {
        ids@.index_of_first_ensures(id);
        if ids@.contains(id) {
            let j = choose|j: int| 0 <= j < ids@.len() && ids@[j] == id;
            assert(ids@[j] != id);
        }
    }
    None
}

/// Where keyboard navigation moves focus among `cycle`: forward to the next
/// node, backward to the previous one, wrapping around; from outside the
/// cycle, to its first node.
pub fn tab_focus_target(cycle: &[WidgetId], focused: Option<WidgetId>, backward: bool) -> (r: Option<
    WidgetId,
>)
    ensures
        r == tab_target(cycle@, focused, backward),
{
    if cycle.len() == 0 {
        return None;
    }
    let current = match focused {
        Some(f) => position_in(cycle, f),
        None => None,
    };
    proof {
        match focused {
            Some(f) => {
                cycle@.index_of_first_ensures(f);
            },
            None => {},
        }
    }
    let index = match current {
        Some(i) => if !backward {
            (i + 1) % cycle.len()
        } else if i == 0 {
            cycle.len() - 1
        } else {
            i - 1
        },
        None => 0,
    };
    Some(cycle[index])
}

/// The phase in which a node receives an event.
#[derive(Clone, Copy, Debug, PartialEq, Eq, Structural, Hash)]
pub enum EventPhase {
    /// From the root down to the target's parent.
    Capture,
    /// At the target.
    Target,
    /// From the target's parent back up to the root.
    Bubble,
}

/// A focus change requested by an event handler.
#[derive(Clone, Copy, Debug, PartialEq, Eq, Structural, Hash)]
pub enum FocusRequest {
    /// Focus the given node.
    Focus(WidgetId),
    /// Leave no node focused.
    Clear,
}

/// What the handlers of one event requested.
pub struct EventEffects {
    /// A handler stopped further delivery.
    pub propagation_stopped: bool,
    /// Pointer capture as the handlers left it.
    pub pointer_capture: PointerTargets,
    /// The node focused when delivery began.
    pub focused: Option<WidgetId>,
    /// A requested focus change, the last one winning.
    pub focus_request: Option<FocusRequest>,
    /// A handler asked for a new layout.
    pub layout_requested: bool,
    /// A handler asked for a new frame.
    pub redraw_requested: bool,
}

/// The order in which an event reaches the nodes of `route`: each node but
/// the last in the capture phase from the root down, then `target`, then
/// the same nodes in the bubble phase from the bottom up.
pub open spec fn delivery_plan(route: Seq<WidgetId>, target: WidgetId) -> Seq<(WidgetId, EventPhase)> {
    let upper = if route.len() > 0 {
        route.drop_last()
    } else {
        route
    };
    upper.map_values(|id: WidgetId| (id, EventPhase::Capture)) + seq![(target, EventPhase::Target)]
        + upper.reverse().map_values(|id: WidgetId| (id, EventPhase::Bubble))
}

/// The order in which an event reaches the nodes of `route`: each node but
/// the last in the capture phase from the root down, then `target`, then
/// the same nodes in the bubble phase from the bottom up. Delivery stops
/// early when a handler stops propagation.
pub fn delivery_order(route: &[WidgetId], target: WidgetId) -> (r: Vec<(WidgetId, EventPhase)>)
    ensures
        r@ == delivery_plan(route@, target),
{
    let upper = if route.len() > 0 {
        route.len() - 1
    } else {
        0
    };
    let ghost up = if route@.len() > 0 {
        route@.drop_last()
    } else {
        route@
    };
    let mut plan: Vec<(WidgetId, EventPhase)> = Vec::new();
    let mut k: usize = 0;
    while k < upper
        invariant
            upper == up.len(),
            up.len() <= route@.len(),
            forall|j: int| 0 <= j < up.len() ==> up[j] == route@[j],
            k <= upper,
            plan@ == up.take(k as int).map_values(|id: WidgetId| (id, EventPhase::Capture)),
        decreases upper - k,
    {
        plan.push((route[k], EventPhase::Capture));
        k = k + 1;
        proof {
            assert(plan@ =~= up.take(k as int).map_values(|id: WidgetId| (id, EventPhase::Capture)));
        }
    }
    plan.push((target, EventPhase::Target));
    let ghost head = plan@;
    proof {
        assert(up.take(k as int) =~= up);
    }
    let mut j: usize = upper;
    while j > 0
        invariant
            upper == up.len(),
            up.len() <= route@.len(),
            forall|i: int| 0 <= i < up.len() ==> up[i] == route@[i],
            j <= upper,
            plan@ == head + up.subrange(j as int, up.len() as int).reverse().map_values(
                |id: WidgetId| (id, EventPhase::Bubble),
            ),
        decreases j,
    {
        j = j - 1;
        plan.push((route[j], EventPhase::Bubble));
        proof {
            assert(plan@ =~= head + up.subrange(j as int, up.len() as int).reverse().map_values(
                |id: WidgetId| (id, EventPhase::Bubble),
            ));
        }
    }
    proof {
        assert(up.subrange(0, up.len() as int) =~= up);
        assert(plan@ =~= delivery_plan(route@, target));
    }
    plan
}

/// What a focus request resolves to: a live node that takes focus, or none.
pub open spec fn resolved_focus<W>(v: RuntimeView<W>, request: FocusRequest) -> Option<WidgetId> {
    match request {
        FocusRequest::Focus(id) => if v.live(id) && v.node(id).accepts_focus {
            Some(id)
        } else {
            None
        },
        FocusRequest::Clear => None,
    }
}

/// The runtime after an event whose handlers left pointer capture
/// `captures` and asked for a frame or a layout as given, `released` being
/// the pointer let go by the event, if any.
pub open spec fn finished<W>(
    v: RuntimeView<W>,
    released: Option<PointerId>,
    captures: Seq<(PointerId, WidgetId)>,
    redraw: bool,
    layout: bool,
) -> RuntimeView<W> {
    let kept = RuntimeView {
        captures: match released {
            Some(p) => without_pointer(captures, p),
            None => captures,
        },
        redraw: v.redraw || redraw,
        ..v
    };
    if layout {
        invalidated(kept)
    } else {
        kept
    }
}

/// The element of `o`, if any, as a sequence.
pub open spec fn option_seq(o: Option<WidgetId>) -> Seq<WidgetId> {
    match o {
        Some(x) => seq![x],
        None => Seq::empty(),
    }
}

fn copy_ids(ids: &[WidgetId]) -> (r: Vec<WidgetId>)
    ensures
        r@ == ids@,
{
    let mut r: Vec<WidgetId> = Vec::new();
    let mut k: usize = 0;
    while k < ids.len()
        invariant
            k <= ids@.len(),
            r@ == ids@.take(k as int),
        decreases ids@.len() - k,
    {
        r.push(ids[k]);
        k = k + 1;
        proof {
            assert(r@ =~= ids@.take(k as int));
        }
    }
    proof {
        assert(ids@.take(k as int) =~= ids@);
    }
    r
}

/// Whether `positioned` lists some of `children`, each at most once, in
/// the order of `children`.
pub open spec fn in_tree_order(positioned: Seq<WidgetId>, children: Seq<WidgetId>) -> bool
    decreases children.len(),
{
    if positioned.len() == 0 {
        true
    } else if children.len() == 0 {
        false
    } else if positioned[0] == children[0] {
        in_tree_order(positioned.drop_first(), children.drop_first())
    } else {
        in_tree_order(positioned, children.drop_first())
    }
}

proof fn lemma_in_tree_order_skip(p: Seq<WidgetId>, c: Seq<WidgetId>, a: int, b: int)
    requires
        p.len() > 0,
        0 <= a <= b <= c.len(),
        forall|q: int| a <= q < b ==> c[q] != p[0],
    ensures
        in_tree_order(p, c.skip(a)) == in_tree_order(p, c.skip(b)),
    decreases b - a,
{
    if a < b {
        assert(c.skip(a).drop_first() =~= c.skip(a + 1));
        assert(c.skip(a)[0] == c[a]);
        lemma_in_tree_order_skip(p, c, a + 1, b);
    }
}

/// Whether the nodes of `positioned` are children from `children`, each at
/// most once, in the order of `children`.
pub fn children_in_order(positioned: &[(WidgetId, bool)], children: &[WidgetId]) -> (r: bool)
    ensures
        r == in_tree_order(positioned@.map_values(|e: (WidgetId, bool)| e.0), children@),
{
    let ghost ids = positioned@.map_values(|e: (WidgetId, bool)| e.0);
    let mut next: usize = 0;
    let mut j: usize = 0;
    proof {
        assert(ids.skip(0) =~= ids);
        assert(children@.skip(0) =~= children@);
    }
    while j < positioned.len()
        invariant
            ids == positioned@.map_values(|e: (WidgetId, bool)| e.0),
            j <= positioned@.len(),
            next <= children@.len(),
            in_tree_order(ids, children@) == in_tree_order(ids.skip(j as int), children@.skip(
                next as int,
            )),
        decreases positioned@.len() - j,
    {
        let wanted = positioned[j].0;
        let mut t: usize = next;
        while t < children.len() && children[t] != wanted
            invariant
                next <= t <= children@.len(),
                forall|q: int| next <= q < t ==> children@[q] != wanted,
            decreases children@.len() - t,
        {
            t = t + 1;
        }
        proof {
            assert(ids.skip(j as int)[0] == wanted);
            lemma_in_tree_order_skip(ids.skip(j as int), children@, next as int, t as int);
        }
        if t == children.len() {
            proof {
                assert(children@.skip(t as int).len() == 0);
            }
            return false;
        }
        proof {
            assert(children@.skip(t as int)[0] == wanted);
            assert(ids.skip(j as int).drop_first() =~= ids.skip(j + 1));
            assert(children@.skip(t as int).drop_first() =~= children@.skip(t + 1));
        }
        next = t + 1;
        j = j + 1;
    }
    proof {
        assert(ids.skip(j as int).len() == 0);
    }
    true
}

/// The runtime after setting whether live node `id` is shown.
pub open spec fn with_visible<W>(v: RuntimeView<W>, id: WidgetId, visible: bool) -> RuntimeView<W> {
    if v.live(id) {
        RuntimeView {
            slots: v.slots.update(
                id.slot() as int,
                SlotView {
                    generation: id.gen(),
                    node: Some(WidgetNodeView { visible, ..v.node(id) }),
                },
            ),
            ..v
        }
    } else {
        v
    }
}

/// The runtime after hiding each of `ids`.
pub open spec fn all_hidden<W>(v: RuntimeView<W>, ids: Seq<WidgetId>) -> RuntimeView<W>
    decreases ids.len(),
{
    if ids.len() == 0 {
        v
    } else {
        with_visible(all_hidden(v, ids.drop_last()), ids.last(), false)
    }
}

/// The runtime after showing or hiding each positioned node as given.
pub open spec fn all_shown_as<W>(v: RuntimeView<W>, positioned: Seq<(WidgetId, bool)>) -> RuntimeView<
    W,
>
    decreases positioned.len(),
{
    if positioned.len() == 0 {
        v
    } else {
        with_visible(
            all_shown_as(v, positioned.drop_last()),
            positioned.last().0,
            positioned.last().1,
        )
    }
}

/// The runtime after live `id` was laid out: its invalidation is cleared and
/// its focus acceptance recorded.
pub open spec fn with_layout_done<W>(v: RuntimeView<W>, id: WidgetId, accepts_focus: bool) -> RuntimeView<
    W,
> {
    RuntimeView {
        slots: v.slots.update(
            id.slot() as int,
            SlotView {
                generation: id.gen(),
                node: Some(
                    WidgetNodeView {
                        dirty: DirtyFlags { layout: false, paint: false, hit_test: false },
                        accepts_focus,
                        ..v.node(id)
                    },
                ),
            },
        ),
        ..v
    }
}

/// The runtime after recording the layout of live `id` that positioned
/// `positioned`: every child of `id` is hidden, then each positioned child
/// is shown or hidden as given.
pub open spec fn laid_out<W>(
    v: RuntimeView<W>,
    id: WidgetId,
    positioned: Seq<(WidgetId, bool)>,
    accepts_focus: bool,
) -> RuntimeView<W> {
    all_shown_as(all_hidden(with_layout_done(v, id, accepts_focus), v.node(id).children), positioned)
}

/// A fresh node below `parent`.
pub open spec fn fresh_node<W>(widget: W, parent: Option<WidgetId>) -> WidgetNodeView<W> {
    WidgetNodeView {
        widget,
        parent,
        children: Seq::empty(),
        visible: true,
        dirty: DirtyFlags { layout: true, paint: true, hit_test: true },
        accepts_focus: false,
    }
}

/// The runtime right after creation around `root`.
pub open spec fn created<W>(root: W) -> RuntimeView<W> {
    RuntimeView {
        slots: seq![SlotView { generation: 0, node: Some(fresh_node(root, None)) }],
        free: Seq::empty(),
        root: WidgetId::at(0, 0),
        focused: None,
        captures: Seq::empty(),
        hovered: Seq::empty(),
        diagnostics: Seq::empty(),
        redraw: true,
    }
}

/// Where a new node goes: the most recently vacated slot, else a new slot.
pub open spec fn allocated_id<W>(v: RuntimeView<W>) -> WidgetId {
    if v.free.len() > 0 {
        WidgetId::at(v.free.last(), v.slots[v.free.last() as int].generation)
    } else {
        WidgetId::at(v.slots.len() as u32, 0)
    }
}

/// The runtime after storing `widget` below `parent` at [`allocated_id`].
pub open spec fn allocated<W>(v: RuntimeView<W>, widget: W, parent: Option<WidgetId>) -> RuntimeView<
    W,
> {
    let node = fresh_node(widget, parent);
    if v.free.len() > 0 {
        let index = v.free.last() as int;
        RuntimeView {
            slots: v.slots.update(
                index,
                SlotView { generation: v.slots[index].generation, node: Some(node) },
            ),
            free: v.free.drop_last(),
            ..v
        }
    } else {
        RuntimeView { slots: v.slots.push(SlotView { generation: 0, node: Some(node) }), ..v }
    }
}

/// The runtime after appending `child` to the children of live `parent`.
pub open spec fn with_child<W>(v: RuntimeView<W>, parent: WidgetId, child: WidgetId) -> RuntimeView<
    W,
> {
    let n = v.node(parent);
    RuntimeView {
        slots: v.slots.update(
            parent.slot() as int,
            SlotView {
                generation: parent.gen(),
                node: Some(WidgetNodeView { children: n.children.push(child), ..n }),
            },
        ),
        ..v
    }
}

/// The runtime after replacing the widget of live node `id`.
pub open spec fn with_widget<W>(v: RuntimeView<W>, id: WidgetId, widget: W) -> RuntimeView<W> {
    RuntimeView {
        slots: v.slots.update(
            id.slot() as int,
            SlotView {
                generation: id.gen(),
                node: Some(WidgetNodeView { widget, ..v.node(id) }),
            },
        ),
        ..v
    }
}

/// The diagnostics retained after recording `d`: the oldest is discarded
/// when [`MAX_RETAINED_DIAGNOSTICS`] are already retained.
pub open spec fn retained(log: Seq<DiagnosticView>, d: DiagnosticView) -> Seq<DiagnosticView> {
    if log.len() >= MAX_RETAINED_DIAGNOSTICS {
        log.drop_first().push(d)
    } else {
        log.push(d)
    }
}

/// A slot whose node, if any, needs layout, paint and hit testing again.
pub open spec fn slot_invalidated<W>(s: SlotView<W>) -> SlotView<W> {
    SlotView {
        generation: s.generation,
        node: match s.node {
            Some(n) => Some(
                WidgetNodeView {
                    dirty: DirtyFlags { layout: true, paint: true, hit_test: true },
                    ..n
                },
            ),
            None => None,
        },
    }
}

/// The runtime after invalidating every node and requesting a frame.
pub open spec fn invalidated<W>(v: RuntimeView<W>) -> RuntimeView<W> {
    RuntimeView { slots: v.slots.map_values(|s: SlotView<W>| slot_invalidated(s)), redraw: true, ..v }
}

struct WidgetNode<W> {
    widget: W,
    parent: Option<WidgetId>,
    children: Vec<WidgetId>,
    visible: bool,
    dirty: DirtyFlags,
    accepts_focus: bool,
}

impl<W> View for WidgetNode<W> {
    type V = WidgetNodeView<W>;

    closed spec fn view(&self) -> WidgetNodeView<W> {
        WidgetNodeView {
            widget: self.widget,
            parent: self.parent,
            children: self.children@,
            visible: self.visible,
            dirty: self.dirty,
            accepts_focus: self.accepts_focus,
        }
    }
}

struct ArenaSlot<W> {
    generation: u32,
    node: Option<WidgetNode<W>>,
}

impl<W> View for ArenaSlot<W> {
    type V = SlotView<W>;

    closed spec fn view(&self) -> SlotView<W> {
        SlotView {
            generation: self.generation,
            node: match self.node {
                Some(n) => Some(n@),
                None => None,
            },
        }
    }
}

/// The retained widget tree of a UI runtime.
///
/// Every widget occupies a generational arena slot. Nodes own their parent
/// and child relationships, visibility, invalidation state and focus
/// metadata; widgets themselves only implement behavior.
pub struct UiRuntime<W> {
    nodes: Vec<ArenaSlot<W>>,
    free_slots: Vec<u32>,
    root: WidgetId,
    focused: Option<WidgetId>,
    pointer_capture: PointerTargets,
    hovered: PointerTargets,
    diagnostics: Vec<Diagnostic>,
    redraw_requested: bool,
    depth: Ghost<spec_fn(int) -> nat>,
    depth_bound: Ghost<nat>,
}

impl<W> View for UiRuntime<W> {
    type V = RuntimeView<W>;

    closed spec fn view(&self) -> RuntimeView<W> {
        RuntimeView {
            slots: self.nodes@.map_values(|s: ArenaSlot<W>| s@),
            free: self.free_slots@,
            root: self.root,
            focused: self.focused,
            captures: self.pointer_capture@,
            hovered: self.hovered@,
            diagnostics: self.diagnostics@.map_values(|d: Diagnostic| d@),
            redraw: self.redraw_requested,
        }
    }
}

impl<W> UiRuntime<W> {
    /// The links of the node in slot `i`, if any, are consistent: a non-root
    /// node sits one level below a live parent that lists it, and every child
    /// is live, listed once, and names this node as its parent.
    closed spec fn slot_ok(&self, i: int) -> bool {
        let v = self@;
        let d = self.depth@;
        v.slots[i].node is Some ==> {
            let n = v.slots[i].node->0;
            let id = v.id_at(i);
            &&& d(i) < self.depth_bound@
            &&& i != v.root.slot() ==> {
                &&& n.parent is Some
                &&& v.live(n.parent->0)
                &&& d(n.parent->0.slot() as int) + 1 == d(i)
                &&& v.node(n.parent->0).children.contains(id)
            }
            &&& n.children.no_duplicates()
            &&& forall|k: int|
                0 <= k < n.children.len() ==> {
                    &&& v.live(#[trigger] n.children[k])
                    &&& v.node(n.children[k]).parent == Some(id)
                }
        }
    }

    /// A vacated slot is in range and empty, and appears once.
    closed spec fn free_ok(&self) -> bool {
        vacancies_ok(self@)
    }

    /// The runtime invariant: the root is live and parentless at depth zero,
    /// every occupied slot has consistent links, vacated slots are empty, and
    /// at most [`MAX_RETAINED_DIAGNOSTICS`] diagnostics are retained.
    pub closed spec fn well_formed(&self) -> bool {
        let v = self@;
        &&& v.slots.len() <= u32::MAX + 1
        &&& v.live(v.root)
        &&& v.node(v.root).parent is None
        &&& (self.depth@)(v.root.slot() as int) == 0
        &&& forall|i: int| 0 <= i < v.slots.len() ==> #[trigger] self.slot_ok(i)
        &&& self.free_ok()
        &&& v.diagnostics.len() <= MAX_RETAINED_DIAGNOSTICS
    }

    /// Whether a node can be added without exceeding the identifier space.
    pub open spec fn has_capacity(&self) -> bool {
        self@.free.len() > 0 || self@.slots.len() <= u32::MAX
    }

    /// Creates a runtime whose arena root is `root`.
    pub fn new(root: W) -> (r: Self)
        ensures
            r.well_formed(),
            r@ == created(root),
    {
        let node = WidgetNode {
            widget: root,
            parent: None,
            children: Vec::new(),
            visible: true,
            dirty: DirtyFlags::all(),
            accepts_focus: false,
        };
        let mut nodes: Vec<ArenaSlot<W>> = Vec::new();
        nodes.push(ArenaSlot { generation: 0, node: Some(node) });
        let r = UiRuntime {
            nodes,
            free_slots: Vec::new(),
            root: WidgetId::new(0, 0),
            focused: None,
            pointer_capture: PointerTargets::new(),
            hovered: PointerTargets::new(),
            diagnostics: Vec::new(),
            redraw_requested: true,
            depth: Ghost(|i: int| 0nat),
            depth_bound: Ghost(1),
        };
        proof {
            broadcast use WidgetId::lemma_at_parts;
            assert(r@.slots =~= created(root).slots);
            assert(r@.diagnostics =~= Seq::<DiagnosticView>::empty());
            assert(r.slot_ok(0));
        }
        r
    }

    /// Whether a node can be added without exceeding the identifier space.
    pub fn can_allocate(&self) -> (r: bool)
        ensures
            r == self.has_capacity(),
    {
        self.free_slots.len() > 0 || self.nodes.len() <= u32::MAX as usize
    }

    /// Returns the stable handle of the root node.
    pub fn root(&self) -> (r: WidgetId)
        ensures
            r == self@.root,
    {
        self.root
    }

    /// Whether `id` names a live node.
    pub fn contains(&self, id: WidgetId) -> (r: bool)
        ensures
            r == self@.live(id),
    {
        let index = id.index() as usize;
        index < self.nodes.len() && self.nodes[index].generation == id.generation()
            && self.nodes[index].node.is_some()
    }

    /// Every slot that depends only on links keeps its consistency when only
    /// widgets, visibility, invalidation or focus acceptance change.
    proof fn lemma_same_links(&self, other: &Self)
        requires
            self.well_formed(),
            same_links(self@.slots, other@.slots),
            self@.root == other@.root,
            self@.free == other@.free,
            self.depth@ == other.depth@,
            self.depth_bound@ == other.depth_bound@,
            other@.diagnostics.len() <= MAX_RETAINED_DIAGNOSTICS,
        ensures
            other.well_formed(),
            forall|id: WidgetId| #[trigger] other@.live(id) == self@.live(id),
    {
        let a = self@;
        let b = other@;
        assert forall|id: WidgetId| #[trigger] b.live(id) == a.live(id) by {
            if id.slot() < a.slots.len() {
                assert(links(a.slots[id.slot() as int]) == links(b.slots[id.slot() as int]));
            }
        }
        assert forall|i: int| 0 <= i < b.slots.len() implies #[trigger] other.slot_ok(i) by {
            assert(self.slot_ok(i));
            assert(links(a.slots[i]) == links(b.slots[i]));
            if b.slots[i].node is Some {
                let n = b.slots[i].node->0;
                if i != b.root.slot() {
                    let p = n.parent->0;
                    assert(links(a.slots[p.slot() as int]) == links(b.slots[p.slot() as int]));
                }
                assert forall|k: int| 0 <= k < n.children.len() implies {
                    &&& b.live(#[trigger] n.children[k])
                    &&& b.node(n.children[k]).parent == Some(b.id_at(i))
                } by {
                    let c = n.children[k];
                    assert(a.live(c));
                    assert(links(a.slots[c.slot() as int]) == links(b.slots[c.slot() as int]));
                }
            }
        }
        assert(other.free_ok()) by {
            assert(self.free_ok());
            assert forall|k: int| 0 <= k < b.free.len() implies {
                &&& #[trigger] b.free[k] < b.slots.len()
                &&& b.slots[b.free[k] as int].node is None
            } by {
                assert(links(a.slots[a.free[k] as int]) == links(b.slots[b.free[k] as int]));
            }
        }
        assert(links(a.slots[a.root.slot() as int]) == links(b.slots[b.root.slot() as int]));
    }

    /// Marks every node as needing layout, paint and hit testing, and
    /// requests a frame.
    pub fn invalidate_layout(&mut self)
        requires
            old(self).well_formed(),
        ensures
            final(self).well_formed(),
            final(self)@ == invalidated(old(self)@),
    {
        let ghost start = *self;
        let mut i: usize = 0;
        while i < self.nodes.len()
            invariant
                i <= self.nodes@.len(),
                self.nodes@.len() == start.nodes@.len(),
                forall|j: int|
                    0 <= j < i ==> #[trigger] self.nodes@[j]@ == slot_invalidated(start.nodes@[j]@),
                forall|j: int| i <= j < self.nodes@.len() ==> #[trigger] self.nodes@[j] == start.nodes@[j],
                self.free_slots == start.free_slots,
                self.root == start.root,
                self.focused == start.focused,
                self.pointer_capture == start.pointer_capture,
                self.hovered == start.hovered,
                self.diagnostics == start.diagnostics,
                self.redraw_requested == start.redraw_requested,
                self.depth == start.depth,
                self.depth_bound == start.depth_bound,
            decreases self.nodes@.len() - i,
        {
            if self.nodes[i].node.is_some() {
                let mut n = self.nodes[i].node.take().unwrap();
                n.dirty = DirtyFlags::all();
                self.nodes[i].node = Some(n);
            }
            i = i + 1;
        }
        self.redraw_requested = true;
        proof {
            assert(self@.slots =~= start@.slots.map_values(|s: SlotView<W>| slot_invalidated(s)));
            assert(self@.diagnostics =~= start@.diagnostics);
            start.lemma_same_links(self);
        }
    }


    /// Appends `child` to `parent` and returns its stable generational handle.
    ///
    /// The new node takes the most recently vacated slot, or a new one.
    /// Fails with [`UiRuntimeError::InvalidWidgetId`], changing nothing, when
    /// `parent` is stale.
    pub fn append_child(&mut self, parent: WidgetId, child: W) -> (r: Result<WidgetId, UiRuntimeError>)
        requires
            old(self).well_formed(),
            old(self).has_capacity(),
        ensures
            final(self).well_formed(),
            r is Ok <==> old(self)@.live(parent),
            match r {
                Ok(id) => {
                    &&& id == allocated_id(old(self)@)
                    &&& final(self)@ == invalidated(
                        with_child(allocated(old(self)@, child, Some(parent)), parent, id),
                    )
                },
                Err(e) => e == UiRuntimeError::InvalidWidgetId && final(self)@ == old(self)@,
            },
    {
        if !self.contains(parent) {
            return Err(UiRuntimeError::InvalidWidgetId);
        }
        let ghost v0 = self@;
        let ghost old_self = *self;
        proof {
            broadcast use WidgetId::lemma_at_parts, WidgetId::lemma_id_parts;
            assert(old_self.slot_ok(parent.slot() as int));
        }
        let node = WidgetNode {
            widget: child,
            parent: Some(parent),
            children: Vec::new(),
            visible: true,
            dirty: DirtyFlags::all(),
            accepts_focus: false,
        };
        let id;
        match self.free_slots.pop() {
            Some(index) => {
                proof {
                    assert(old_self.free_ok());
                    assert(v0.free[v0.free.len() - 1] == index);
                }
                let generation = self.nodes[index as usize].generation;
                self.nodes.set(index as usize, ArenaSlot { generation, node: Some(node) });
                id = WidgetId::new(index, generation);
            },
            None => {
                let index = self.nodes.len() as u32;
                self.nodes.push(ArenaSlot { generation: 0, node: Some(node) });
                id = WidgetId::new(index, 0);
            },
        }
        let ghost v_alloc = self@;
        proof {
            assert(v_alloc.slots =~= allocated(v0, child, Some(parent)).slots);
            assert(v_alloc.free =~= allocated(v0, child, Some(parent)).free);
            assert(v_alloc.diagnostics =~= v0.diagnostics);
            assert(v_alloc == allocated(v0, child, Some(parent)));
            assert(!v0.live(id));
        }
        let pi = parent.index() as usize;
        let mut parent_node = self.nodes[pi].node.take().unwrap();
        parent_node.children.push(id);
        self.nodes[pi].node = Some(parent_node);
        proof {
            let d = old_self.depth@;
            let k = id.slot() as int;
            let new_depth = d(parent.slot() as int) + 1;
            self.depth = Ghost(|j: int| if j == k { new_depth } else { d(j) });
            self.depth_bound = Ghost(
                if new_depth + 1 > old_self.depth_bound@ {
                    new_depth + 1
                } else {
                    old_self.depth_bound@
                },
            );
            let v1 = self@;
            assert(v1.slots =~= with_child(v_alloc, parent, id).slots);
            assert(v1.diagnostics =~= v0.diagnostics);
            assert(v1 == with_child(v_alloc, parent, id));
            assert(k != parent.slot());
            assert(k != v0.root.slot());
            assert forall|x: WidgetId| v0.live(x) implies #[trigger] v1.live(x) && (x.slot()
                != parent.slot() ==> v1.node(x) == v0.node(x)) by {
                assert(x.slot() != k);
            }
            assert forall|i: int| 0 <= i < v1.slots.len() implies #[trigger] self.slot_ok(i) by {
                if i == k {
                    assert(v1.id_at(k) == id);
                    assert(v1.node(parent).children.contains(id)) by {
                        assert(v1.node(parent).children[v1.node(parent).children.len() - 1] == id);
                    }
                } else if v1.slots[i].node is Some {
                    assert(old_self.slot_ok(i));
                    assert(v0.slots[i].node is Some);
                    let n0 = v0.slots[i].node->0;
                    let n1 = v1.slots[i].node->0;
                    assert(v1.id_at(i) == v0.id_at(i));
                    if i != v0.root.slot() {
                        let p = n0.parent->0;
                        assert(v1.live(p));
                        assert(n1.parent == n0.parent);
                        if p.slot() == parent.slot() {
                            assert(v1.node(p).children == v0.node(p).children.push(id));
                            assert(v1.node(p).children.contains(v1.id_at(i))) by {
                                let w = choose|w: int|
                                    0 <= w < v0.node(p).children.len() && v0.node(p).children[w]
                                        == v0.id_at(i);
                                assert(v1.node(p).children[w] == v1.id_at(i));
                            }
                        } else {
                            assert(v1.node(p) == v0.node(p));
                        }
                    }
                    if i == parent.slot() {
                        assert(n1.children == n0.children.push(id));
                        assert(!n0.children.contains(id));
                        assert(n1.children.no_duplicates());
                        assert forall|w: int| 0 <= w < n1.children.len() implies {
                            &&& v1.live(#[trigger] n1.children[w])
                            &&& v1.node(n1.children[w]).parent == Some(v1.id_at(i))
                        } by {
                            if w < n0.children.len() {
                                assert(n1.children[w] == n0.children[w]);
                                assert(n0.children[w].slot() != parent.slot()) by {
                                    assert(d(n0.children[w].slot() as int) == d(i) + 1) by {
                                        assert(old_self.slot_ok(n0.children[w].slot() as int));
                                        assert(v0.id_at(n0.children[w].slot() as int) == n0.children[w]);
                                    }
                                }
                            } else {
                                assert(n1.children[w] == id);
                                assert(v1.id_at(i) == parent);
                            }
                        }
                    } else {
                        assert(n1 == n0);
                        assert forall|w: int| 0 <= w < n1.children.len() implies {
                            &&& v1.live(#[trigger] n1.children[w])
                            &&& v1.node(n1.children[w]).parent == Some(v1.id_at(i))
                        } by {
                            let c = n0.children[w];
                            assert(v0.live(c));
                            if c.slot() == parent.slot() {
                                assert(old_self.slot_ok(c.slot() as int));
                                assert(v0.id_at(c.slot() as int) == c);
                                assert(v0.id_at(c.slot() as int) == parent);
                            }
                        }
                    }
                }
            }
            assert(self.free_ok()) by {
                assert(old_self.free_ok());
                assert forall|w: int| 0 <= w < v1.free.len() implies {
                    &&& #[trigger] v1.free[w] < v1.slots.len()
                    &&& v1.slots[v1.free[w] as int].node is None
                } by {
                    assert(v1.free[w] == v0.free[w]);
                    if v0.free.len() > 0 {
                        assert(v0.free[w] != v0.free[v0.free.len() - 1]);
                    }
                }
                assert(v1.free.no_duplicates());
            }
            assert(v1.live(v1.root));
        }
        self.invalidate_layout();
        Ok(id)
    }

    /// Well-formedness depends on links alone.
    proof fn lemma_links_decide_well_formedness()
        ensures
            forall|a: Self, b: Self|
                #![trigger a.well_formed(), b.well_formed()]
                a.well_formed() && same_links(a@.slots, b@.slots) && a@.root == b@.root && a@.free
                    == b@.free && a.depth@ == b.depth@ && a.depth_bound@ == b.depth_bound@
                    && b@.diagnostics.len() <= MAX_RETAINED_DIAGNOSTICS ==> b.well_formed(),
    {
        assert forall|a: Self, b: Self|
            #![trigger a.well_formed(), b.well_formed()]
            a.well_formed() && same_links(a@.slots, b@.slots) && a@.root == b@.root && a@.free
                == b@.free && a.depth@ == b.depth@ && a.depth_bound@ == b.depth_bound@
                && b@.diagnostics.len() <= MAX_RETAINED_DIAGNOSTICS implies b.well_formed() by {
            a.lemma_same_links(&b);
        }
    }

    /// Mutable access to the widget of a live node.
    pub fn widget_mut(&mut self, id: WidgetId) -> (r: Option<&mut W>)
        requires
            old(self).well_formed(),
        ensures
            final(self).well_formed(),
            match r {
                Some(w) => {
                    &&& old(self)@.live(id)
                    &&& *w == old(self)@.node(id).widget
                    &&& final(self)@ == with_widget(old(self)@, id, *final(w))
                },
                None => !old(self)@.live(id) && final(self)@ == old(self)@,
            },
    {
        if !self.contains(id) {
            return None;
        }
        proof {
            Self::lemma_links_decide_well_formedness();
        }
        let i = id.index() as usize;
        match &mut self.nodes[i].node {
            Some(n) => Some(&mut n.widget),
            None => None,
        }
    }

    /// The widget of a live node.
    pub fn widget(&self, id: WidgetId) -> (r: Option<&W>)
        ensures
            match r {
                Some(w) => self@.live(id) && *w == self@.node(id).widget,
                None => !self@.live(id),
            },
    {
        if !self.contains(id) {
            return None;
        }
        match &self.nodes[id.index() as usize].node {
            Some(n) => Some(&n.widget),
            None => None,
        }
    }

    /// Returns a node's parent, if its handle is live.
    pub fn parent(&self, node: WidgetId) -> (r: Option<WidgetId>)
        ensures
            r == if self@.live(node) {
                self@.node(node).parent
            } else {
                None
            },
    {
        if !self.contains(node) {
            return None;
        }
        match &self.nodes[node.index() as usize].node {
            Some(n) => n.parent,
            None => None,
        }
    }

    /// Returns direct child handles in display order, if `node` is live.
    pub fn children(&self, node: WidgetId) -> (r: Option<&[WidgetId]>)
        ensures
            match r {
                Some(c) => self@.live(node) && c@ == self@.node(node).children,
                None => !self@.live(node),
            },
    {
        if !self.contains(node) {
            return None;
        }
        match &self.nodes[node.index() as usize].node {
            Some(n) => Some(n.children.as_slice()),
            None => None,
        }
    }

    /// Returns the invalidation state of a live node.
    pub fn dirty_flags(&self, node: WidgetId) -> (r: Option<DirtyFlags>)
        ensures
            r == if self@.live(node) {
                Some(self@.node(node).dirty)
            } else {
                None
            },
    {
        if !self.contains(node) {
            return None;
        }
        match &self.nodes[node.index() as usize].node {
            Some(n) => Some(n.dirty),
            None => None,
        }
    }

    /// Returns whether a live node was shown by its parent's last layout, and
    /// whether its widget takes focus.
    pub fn node_flags(&self, node: WidgetId) -> (r: Option<(bool, bool)>)
        ensures
            r == if self@.live(node) {
                Some((self@.node(node).visible, self@.node(node).accepts_focus))
            } else {
                None
            },
    {
        if !self.contains(node) {
            return None;
        }
        match &self.nodes[node.index() as usize].node {
            Some(n) => Some((n.visible, n.accepts_focus)),
            None => None,
        }
    }

    /// Returns the widget currently receiving keyboard input.
    pub fn focused_widget(&self) -> (r: Option<WidgetId>)
        ensures
            r == self@.focused,
    {
        self.focused
    }

    /// Returns the widget currently capturing `pointer`, if any.
    pub fn pointer_capture(&self, pointer: PointerId) -> (r: Option<WidgetId>)
        ensures
            r == target_of(self@.captures, pointer),
    {
        self.pointer_capture.get(pointer)
    }

    /// Returns every pointer capture.
    pub fn pointer_captures(&self) -> (r: &PointerTargets)
        ensures
            r@ == self@.captures,
    {
        &self.pointer_capture
    }

    /// Returns the widget last seen under `pointer`, if any.
    pub fn hovered_widget(&self, pointer: PointerId) -> (r: Option<WidgetId>)
        ensures
            r == target_of(self@.hovered, pointer),
    {
        self.hovered.get(pointer)
    }

    /// Records the widget under `pointer`, or forgets it.
    pub fn set_hovered_widget(&mut self, pointer: PointerId, widget: Option<WidgetId>)
        requires
            old(self).well_formed(),
        ensures
            final(self).well_formed(),
            final(self)@ == (RuntimeView {
                hovered: match widget {
                    Some(w) => with_target(old(self)@.hovered, pointer, w),
                    None => without_pointer(old(self)@.hovered, pointer),
                },
                ..old(self)@
            }),
    {
        proof {
            Self::lemma_links_decide_well_formedness();
        }
        match widget {
            Some(w) => self.hovered.insert(pointer, w),
            None => self.hovered.remove(pointer),
        }
    }

    /// Returns whether a frame was requested since the last call, and clears
    /// the request.
    pub fn take_redraw_request(&mut self) -> (r: bool)
        requires
            old(self).well_formed(),
        ensures
            final(self).well_formed(),
            r == old(self)@.redraw,
            final(self)@ == (RuntimeView { redraw: false, ..old(self)@ }),
    {
        proof {
            Self::lemma_links_decide_well_formedness();
        }
        let r = self.redraw_requested;
        self.redraw_requested = false;
        r
    }

    /// Requests another frame.
    pub fn request_redraw(&mut self)
        requires
            old(self).well_formed(),
        ensures
            final(self).well_formed(),
            final(self)@ == (RuntimeView { redraw: true, ..old(self)@ }),
    {
        proof {
            Self::lemma_links_decide_well_formedness();
        }
        self.redraw_requested = true;
    }

    /// Forgets focus, pointer capture and hover, as after a failed layout.
    pub fn clear_interaction_state(&mut self)
        requires
            old(self).well_formed(),
        ensures
            final(self).well_formed(),
            final(self)@ == (RuntimeView {
                focused: None,
                captures: Seq::empty(),
                hovered: Seq::empty(),
                ..old(self)@
            }),
    {
        proof {
            Self::lemma_links_decide_well_formedness();
        }
        self.pointer_capture.clear();
        self.hovered.clear();
        self.focused = None;
    }

    /// Returns up to [`MAX_RETAINED_DIAGNOSTICS`] most recent diagnostics,
    /// oldest first.
    pub fn diagnostics(&self) -> (r: &[Diagnostic])
        ensures
            r@.map_values(|d: Diagnostic| d@) == self@.diagnostics,
    {
        self.diagnostics.as_slice()
    }

    /// Drains and returns the retained diagnostics.
    pub fn take_diagnostics(&mut self) -> (r: Vec<Diagnostic>)
        requires
            old(self).well_formed(),
        ensures
            final(self).well_formed(),
            r@.map_values(|d: Diagnostic| d@) == old(self)@.diagnostics,
            final(self)@ == (RuntimeView { diagnostics: Seq::empty(), ..old(self)@ }),
    {
        proof {
            Self::lemma_links_decide_well_formedness();
        }
        let mut taken: Vec<Diagnostic> = Vec::new();
        std::mem::swap(&mut taken, &mut self.diagnostics);
        proof {
            assert(self@.diagnostics =~= Seq::<DiagnosticView>::empty());
        }
        taken
    }

    /// Retains `diagnostic`, discarding the oldest one when
    /// [`MAX_RETAINED_DIAGNOSTICS`] are already retained.
    pub fn record_diagnostic(&mut self, diagnostic: Diagnostic)
        requires
            old(self).well_formed(),
        ensures
            final(self).well_formed(),
            final(self)@ == (RuntimeView {
                diagnostics: retained(old(self)@.diagnostics, diagnostic@),
                ..old(self)@
            }),
    {
        proof {
            Self::lemma_links_decide_well_formedness();
        }
        let ghost before = self.diagnostics@;
        if self.diagnostics.len() == MAX_RETAINED_DIAGNOSTICS {
            self.diagnostics.remove(0);
        }
        self.diagnostics.push(diagnostic);
        proof {
            if before.len() == MAX_RETAINED_DIAGNOSTICS {
                assert(self@.diagnostics =~= retained(
                    before.map_values(|d: Diagnostic| d@),
                    diagnostic@,
                ));
            } else {
                assert(self@.diagnostics =~= retained(
                    before.map_values(|d: Diagnostic| d@),
                    diagnostic@,
                ));
            }
        }
    }

    /// The nodes of the subtree rooted at live `id`, children before their
    /// parent and siblings in display order.
    pub closed spec fn subtree_of(&self, id: WidgetId) -> Seq<WidgetId> {
        subtree_order(self@, id, self.fuel(id))
    }

    spec fn fuel(&self, id: WidgetId) -> nat {
        (self.depth_bound@ - (self.depth@)(id.slot() as int)) as nat
    }

    proof fn lemma_child_link(&self, p: WidgetId, c: WidgetId)
        requires
            self.well_formed(),
            self@.live(p),
            self@.node(p).children.contains(c),
        ensures
            self@.live(c),
            self@.node(c).parent == Some(p),
            c != self@.root,
            (self.depth@)(c.slot() as int) == (self.depth@)(p.slot() as int) + 1,
            (self.depth@)(c.slot() as int) < self.depth_bound@,
            self.fuel(p) == self.fuel(c) + 1,
    {
        broadcast use WidgetId::lemma_at_parts, WidgetId::lemma_id_parts;
        let v = self@;
        assert(self.slot_ok(p.slot() as int));
        assert(v.id_at(p.slot() as int) == p);
        let k = choose|k: int| 0 <= k < v.node(p).children.len() && v.node(p).children[k] == c;
        assert(v.live(v.node(p).children[k]));
        assert(self.slot_ok(c.slot() as int));
        assert(v.id_at(c.slot() as int) == c);
        if c.slot() == v.root.slot() {
            assert(c == v.root);
        }
    }

    proof fn lemma_parent_link(&self, x: WidgetId)
        requires
            self.well_formed(),
            self@.live(x),
            x != self@.root,
        ensures
            self@.node(x).parent is Some,
            self@.live(self@.node(x).parent->0),
            self@.node(self@.node(x).parent->0).children.contains(x),
            (self.depth@)(x.slot() as int) == (self.depth@)(self@.node(x).parent->0.slot() as int) + 1,
    {
        broadcast use WidgetId::lemma_at_parts, WidgetId::lemma_id_parts;
        assert(self.slot_ok(x.slot() as int));
        assert(self@.id_at(x.slot() as int) == x);
        if x.slot() == self@.root.slot() {
            assert(x == self@.root);
        }
    }

    proof fn lemma_subtree_members(&self, id: WidgetId, fuel: nat, x: WidgetId)
        requires
            self.well_formed(),
            self@.live(id),
            subtree_order(self@, id, fuel).contains(x),
        ensures
            self@.live(x),
            (self.depth@)(x.slot() as int) >= (self.depth@)(id.slot() as int),
            x != id ==> {
                &&& x != self@.root
                &&& subtree_order(self@, id, fuel).contains(self@.node(x).parent->0)
            },
        decreases fuel,
    {
        let v = self@;
        let cs = v.node(id).children;
        let f = (fuel - 1) as nat;
        let head = children_order(v, cs, f);
        assert(subtree_order(v, id, fuel) == head.push(id));
        if x != id {
            assert(head.contains(x)) by {
                let k = choose|k: int| 0 <= k < head.push(id).len() && head.push(id)[k] == x;
                assert(head[k] == x);
            }
            lemma_children_order_member(v, cs, f, x);
            let k = choose|k: int| 0 <= k < cs.len() && #[trigger] subtree_order(v, cs[k], f).contains(x);
            let c = cs[k];
            assert(cs.contains(c));
            self.lemma_child_link(id, c);
            assert(v.live(c));
            self.lemma_subtree_members(c, f, x);
            let p = v.node(x).parent->0;
            assert(head.push(id)[head.len() as int] == id);
            if x == c {
                assert(p == id);
            } else {
                lemma_children_order_member(v, cs, f, p);
                assert(head.contains(p));
                let w = choose|w: int| 0 <= w < head.len() && head[w] == p;
                assert(head.push(id)[w] == p);
            }
        }
    }

    proof fn lemma_subtree_closed(&self, id: WidgetId, y: WidgetId, c: WidgetId)
        requires
            self.well_formed(),
            self@.live(id),
            self.subtree_of(id).contains(y),
            self@.node(y).children.contains(c),
        ensures
            self.subtree_of(id).contains(c),
        decreases self.fuel(id),
    {
        let v = self@;
        let cs = v.node(id).children;
        assert(self.slot_ok(id.slot() as int));
        broadcast use WidgetId::lemma_at_parts, WidgetId::lemma_id_parts;
        assert(v.id_at(id.slot() as int) == id);
        let f = (self.fuel(id) - 1) as nat;
        let head = children_order(v, cs, f);
        assert(self.subtree_of(id) == head.push(id));
        self.lemma_subtree_members(id, self.fuel(id), y);
        if y == id {
            self.lemma_child_link(id, c);
            let k = choose|k: int| 0 <= k < cs.len() && cs[k] == c;
            assert(subtree_order(v, c, f) == children_order(v, v.node(c).children, (f - 1) as nat).push(c));
            assert(subtree_order(v, cs[k], f).contains(c)) by {
                let t = children_order(v, v.node(c).children, (f - 1) as nat);
                assert(t.push(c)[t.len() as int] == c);
            }
            lemma_children_order_member(v, cs, f, c);
        } else {
            assert(head.contains(y)) by {
                let k = choose|k: int| 0 <= k < head.push(id).len() && head.push(id)[k] == y;
                assert(head[k] == y);
            }
            lemma_children_order_member(v, cs, f, y);
            let k = choose|k: int| 0 <= k < cs.len() && #[trigger] subtree_order(v, cs[k], f).contains(y);
            let child = cs[k];
            assert(cs.contains(child));
            self.lemma_child_link(id, child);
            assert(self.subtree_of(child) == subtree_order(v, child, f));
            self.lemma_subtree_closed(child, y, c);
            lemma_children_order_member(v, cs, f, c);
        }
        assert(head.contains(c));
        let w = choose|w: int| 0 <= w < head.len() && head[w] == c;
        assert(head.push(id)[w] == c);
    }

    fn collect_subtree(&self, id: WidgetId, out: &mut Vec<WidgetId>)
        requires
            self.well_formed(),
            self@.live(id),
        ensures
            final(out)@ == old(out)@ + self.subtree_of(id),
        decreases self.fuel(id),
    {
        let ghost v = self@;
        let node = match &self.nodes[id.index() as usize].node {
            Some(n) => n,
            None => {
                return ;
            },
        };
        proof {
            assert(node@ == v.node(id));
            assert(self.slot_ok(id.slot() as int));
            assert(self.fuel(id) > 0);
        }
        let ghost f = (self.fuel(id) - 1) as nat;
        let mut k: usize = 0;
        while k < node.children.len()
            invariant
                self.well_formed(),
                self@.live(id),
                node@ == self@.node(id),
                f + 1 == self.fuel(id),
                k <= node.children@.len(),
                out@ == old(out)@ + children_order(self@, node.children@.take(k as int), f),
            decreases node.children@.len() - k,
        {
            let c = node.children[k];
            proof {
                assert(node.children@.contains(c));
                self.lemma_child_link(id, c);
            }
            self.collect_subtree(c, out);
            proof {
                let t = node.children@.take(k + 1);
                assert(t.drop_last() =~= node.children@.take(k as int));
                assert(t.last() == c);
                assert(out@ =~= old(out)@ + children_order(self@, t, f));
            }
            k = k + 1;
        }
        proof {
            assert(node.children@.take(k as int) =~= node.children@);
        }
        out.push(id);
        proof {
            assert(out@ =~= old(out)@ + self.subtree_of(id));
        }
    }

    fn vacate(&mut self, id: WidgetId)
        ensures
            final(self)@ == vacated(old(self)@, id),
            final(self).depth == old(self).depth,
            final(self).depth_bound == old(self).depth_bound,
    {
        let ghost v = self@;
        let i = id.index() as usize;
        if i < self.nodes.len() && self.nodes[i].node.is_some() {
            self.nodes[i].node = None;
            let g = self.nodes[i].generation;
            match g.checked_add(1) {
                Some(next) => {
                    self.nodes[i].generation = next;
                    self.free_slots.push(id.index());
                },
                None => {},
            }
        }
        self.pointer_capture.forget_widget(id);
        self.hovered.forget_widget(id);
        match self.focused {
            Some(f) => {
                if f == id {
                    self.focused = None;
                }
            },
            None => {},
        }
        proof {
            assert(self@.slots =~= vacated(v, id).slots);
            assert(self@.diagnostics =~= vacated(v, id).diagnostics);
        }
    }

    proof fn lemma_removal_well_formed(old_rt: &Self, new_rt: &Self, node: WidgetId)
        requires
            old_rt.well_formed(),
            old_rt@.live(node),
            node != old_rt@.root,
            new_rt@ == vacated_all(detached(old_rt@, node), old_rt.subtree_of(node)),
            new_rt.depth == old_rt.depth,
            new_rt.depth_bound == old_rt.depth_bound,
        ensures
            new_rt.well_formed(),
            forall|id: WidgetId| #[trigger] new_rt@.live(id) <==> (old_rt@.live(id)
                && !old_rt.subtree_of(node).contains(id)),
    {
        broadcast use WidgetId::lemma_at_parts, WidgetId::lemma_id_parts;
        let v0 = old_rt@;
        let st = old_rt.subtree_of(node);
        let v1 = detached(v0, node);
        let v2 = new_rt@;
        old_rt.lemma_parent_link(node);
        let p = v0.node(node).parent->0;
        let pi = p.slot() as int;
        lemma_without_id(v0.node(p).children, node);
        lemma_vacated_all(v1, st);
        assert(old_rt.slot_ok(pi));
        assert(v0.id_at(pi) == p);
        assert(st.contains(node)) by {
            assert(old_rt.slot_ok(node.slot() as int));
            let t = children_order(v0, v0.node(node).children, (old_rt.fuel(node) - 1) as nat);
            assert(st == t.push(node));
            assert(t.push(node)[t.len() as int] == node);
        }
        // Slots of live nodes that the removal hits belong to removed nodes.
        assert forall|x: WidgetId| v0.live(x) && #[trigger] hits(st, x.slot() as int) implies st.contains(x) by {
            let k = choose|k: int| 0 <= k < st.len() && #[trigger] st[k].slot() == x.slot();
            assert(st.contains(st[k]));
            old_rt.lemma_subtree_members(node, old_rt.fuel(node), st[k]);
            assert(WidgetId::at(x.slot(), x.gen()) == x);
            assert(WidgetId::at(st[k].slot(), st[k].gen()) == st[k]);
            assert(st[k] == x);
        }
        assert forall|x: WidgetId| st.contains(x) implies #[trigger] hits(st, x.slot() as int) by {
            let k = choose|k: int| 0 <= k < st.len() && st[k] == x;
            assert(st[k].slot() == x.slot());
        }
        // The root survives.
        assert(!st.contains(v0.root)) by {
            if st.contains(v0.root) {
                old_rt.lemma_subtree_members(node, old_rt.fuel(node), v0.root);
            }
        }
        assert(!hits(st, v0.root.slot() as int));
        assert forall|id: WidgetId| #[trigger] v2.live(id) <==> (v0.live(id) && !st.contains(id)) by {
            let i = id.slot() as int;
            if id.slot() < v0.slots.len() {
                if v2.live(id) {
                    assert(!hits(st, i));
                }
                if v0.live(id) && !st.contains(id) {
                    assert(!hits(st, i));
                }
            }
        }
        assert forall|i: int| 0 <= i < v2.slots.len() implies #[trigger] new_rt.slot_ok(i) by {
            if v2.slots[i].node is Some {
                assert(!hits(st, i));
                assert(v2.slots[i] == v1.slots[i]);
                assert(old_rt.slot_ok(i));
                let me = v0.id_at(i);
                assert(v2.id_at(i) == me);
                assert(v0.live(me));
                assert(!st.contains(me));
                let n0 = v0.slots[i].node->0;
                let n2 = v2.slots[i].node->0;
                if i != v0.root.slot() {
                    let q = n0.parent->0;
                    assert(n2.parent == n0.parent);
                    assert(!st.contains(q)) by {
                        if st.contains(q) {
                            old_rt.lemma_subtree_closed(node, q, me);
                        }
                    }
                    assert(!hits(st, q.slot() as int));
                    assert(v2.slots[q.slot() as int] == v1.slots[q.slot() as int]);
                    assert(v2.live(q));
                    if q.slot() == p.slot() {
                        assert(q == p);
                        assert(me != node);
                        assert(v2.node(q).children.contains(me));
                    } else {
                        assert(v2.node(q) == v0.node(q));
                    }
                }
                if i == pi {
                    assert(n2.children == without_id(n0.children, node));
                }
                assert forall|w: int| 0 <= w < n2.children.len() implies {
                    &&& v2.live(#[trigger] n2.children[w])
                    &&& v2.node(n2.children[w]).parent == Some(v2.id_at(i))
                } by {
                    let c = n2.children[w];
                    assert(n2.children.contains(c));
                    assert(n0.children.contains(c) && (i == pi ==> c != node));
                    let w0 = choose|w0: int| 0 <= w0 < n0.children.len() && n0.children[w0] == c;
                    assert(v0.live(n0.children[w0]));
                    assert(v0.node(c).parent == Some(me));
                    assert(!st.contains(c)) by {
                        if st.contains(c) {
                            if c == node {
                                assert(me == p);
                            } else {
                                old_rt.lemma_subtree_members(node, old_rt.fuel(node), c);
                            }
                        }
                    }
                    assert(!hits(st, c.slot() as int));
                    assert(v2.slots[c.slot() as int] == v1.slots[c.slot() as int]);
                }
            }
        }
        assert(vacancies_ok(v1)) by {
            assert(old_rt.free_ok());
            assert forall|k: int| 0 <= k < v1.free.len() implies {
                &&& #[trigger] v1.free[k] < v1.slots.len()
                &&& v1.slots[v1.free[k] as int].node is None
            } by {
                assert(v0.free[k] != p.slot());
            }
        }
        assert(new_rt.free_ok());
        assert(v2.live(v2.root));
        assert(v2.slots[v0.root.slot() as int] == v1.slots[v0.root.slot() as int]);
    }

    /// Removes `node` and all of its descendants, invalidating their handles.
    ///
    /// Fails with [`UiRuntimeError::InvalidWidgetId`], changing nothing, when
    /// `node` is stale or is the root. Otherwise the node leaves its parent's
    /// children, the subtree's slots are vacated children first, and the
    /// retained layout is invalidated.
    pub fn remove_subtree(&mut self, node: WidgetId) -> (r: Result<(), UiRuntimeError>)
        requires
            old(self).well_formed(),
        ensures
            final(self).well_formed(),
            r is Ok <==> (node != old(self)@.root && old(self)@.live(node)),
            match r {
                Ok(()) => final(self)@ == invalidated(
                    vacated_all(detached(old(self)@, node), old(self).subtree_of(node)),
                ),
                Err(e) => e == UiRuntimeError::InvalidWidgetId && final(self)@ == old(self)@,
            },
            r is Ok ==> forall|id: WidgetId| #[trigger] final(self)@.live(id) <==> (old(self)@.live(id)
                && !old(self).subtree_of(node).contains(id)),
    {
        if node == self.root {
            return Err(UiRuntimeError::InvalidWidgetId);
        }
        if !self.contains(node) {
            return Err(UiRuntimeError::InvalidWidgetId);
        }
        proof {
            self.lemma_parent_link(node);
        }
        let parent = match self.parent(node) {
            Some(p) => p,
            None => {
                return Err(UiRuntimeError::InvalidWidgetId);
            },
        };
        let ghost start = *self;
        let mut order: Vec<WidgetId> = Vec::new();
        self.collect_subtree(node, &mut order);
        let pi = parent.index() as usize;
        let mut parent_node = self.nodes[pi].node.take().unwrap();
        let mut kept: Vec<WidgetId> = Vec::new();
        let mut k: usize = 0;
        while k < parent_node.children.len()
            invariant
                k <= parent_node.children@.len(),
                kept@ == without_id(parent_node.children@.take(k as int), node),
            decreases parent_node.children@.len() - k,
        {
            let c = parent_node.children[k];
            proof {
                assert(parent_node.children@.take(k + 1).drop_last() =~= parent_node.children@.take(
                    k as int,
                ));
            }
            if c != node {
                kept.push(c);
            }
            k = k + 1;
        }
        proof {
            assert(parent_node.children@.take(k as int) =~= parent_node.children@);
        }
        parent_node.children = kept;
        self.nodes[pi].node = Some(parent_node);
        let ghost v1 = self@;
        proof {
            assert(v1.slots =~= detached(start@, node).slots);
            assert(v1.diagnostics =~= start@.diagnostics);
            assert(v1 == detached(start@, node));
        }
        let mut j: usize = 0;
        while j < order.len()
            invariant
                j <= order@.len(),
                order@ == start.subtree_of(node),
                self@ == vacated_all(v1, order@.take(j as int)),
                self.depth == start.depth,
                self.depth_bound == start.depth_bound,
            decreases order@.len() - j,
        {
            self.vacate(order[j]);
            proof {
                assert(order@.take(j + 1).drop_last() =~= order@.take(j as int));
            }
            j = j + 1;
        }
        proof {
            assert(order@.take(j as int) =~= order@);
            Self::lemma_removal_well_formed(&start, self, node);
        }
        let ghost before = self@;
        self.invalidate_layout();
        proof {
            assert forall|id: WidgetId| #[trigger] self@.live(id) == before.live(id) by {
                if id.slot() < before.slots.len() {
                    assert(self@.slots[id.slot() as int] == slot_invalidated(
                        before.slots[id.slot() as int],
                    ));
                }
            }
        }
        Ok(())
    }

    /// Removes `node` and all of its descendants; the same as
    /// [`Self::remove_subtree`].
    pub fn remove(&mut self, node: WidgetId) -> (r: Result<(), UiRuntimeError>)
        requires
            old(self).well_formed(),
        ensures
            final(self).well_formed(),
            r is Ok <==> (node != old(self)@.root && old(self)@.live(node)),
            match r {
                Ok(()) => final(self)@ == invalidated(
                    vacated_all(detached(old(self)@, node), old(self).subtree_of(node)),
                ),
                Err(e) => e == UiRuntimeError::InvalidWidgetId && final(self)@ == old(self)@,
            },
    {
        self.remove_subtree(node)
    }

    /// The nodes from `target` up to the root, following at most as many
    /// links as `target` is deep.
    pub closed spec fn ancestors_of(&self, target: WidgetId) -> Seq<WidgetId> {
        ancestry(self@, target, (self.depth@)(target.slot() as int) + 1)
    }

    /// The event route to `target`: the root first, `target` last. A stale
    /// target routes to itself alone.
    pub closed spec fn route_of(&self, target: WidgetId) -> Seq<WidgetId> {
        self.ancestors_of(target).reverse()
    }

    /// Whether `target` and every ancestor are live and were shown by the
    /// last layout of their parents.
    pub closed spec fn shown(&self, target: WidgetId) -> bool {
        all_shown(self@, self.ancestors_of(target))
    }

    /// The visible nodes that take focus, in depth-first tree order.
    pub closed spec fn focus_cycle(&self) -> Seq<WidgetId> {
        focus_order(self@, self@.root, self.fuel(self@.root))
    }

    fn collect_ancestors(&self, target: WidgetId) -> (r: Vec<WidgetId>)
        requires
            self.well_formed(),
        ensures
            r@ == self.ancestors_of(target),
    {
        let mut up: Vec<WidgetId> = Vec::new();
        let mut current = target;
        let ghost mut fuel: nat = (self.depth@)(target.slot() as int) + 1;
        loop
            invariant_except_break
                self.well_formed(),
                fuel >= 1,
                self@.live(current) ==> fuel == (self.depth@)(current.slot() as int) + 1,
                up@ + ancestry(self@, current, fuel) == self.ancestors_of(target),
            ensures
                up@ == self.ancestors_of(target),
            decreases fuel,
        {
            up.push(current);
            match self.parent(current) {
                Some(p) => {
                    proof {
                        if current == self@.root {
                            assert(false);
                        }
                        self.lemma_parent_link(current);
                        assert(up@ + ancestry(self@, p, (fuel - 1) as nat) =~= self.ancestors_of(
                            target,
                        ));
                        fuel = (fuel - 1) as nat;
                    }
                    current = p;
                },
                None => {
                    proof {
                        assert(up@ =~= self.ancestors_of(target));
                    }
                    break ;
                },
            }
        }
        up
    }

    /// The route an event to `target` takes: the root first, `target` last.
    pub fn route_to(&self, target: WidgetId) -> (r: Vec<WidgetId>)
        requires
            self.well_formed(),
        ensures
            r@ == self.route_of(target),
    {
        let up = self.collect_ancestors(target);
        let mut route: Vec<WidgetId> = Vec::new();
        let mut k: usize = up.len();
        while k > 0
            invariant
                k <= up@.len(),
                route@ == up@.subrange(k as int, up@.len() as int).reverse(),
            decreases k,
        {
            k = k - 1;
            route.push(up[k]);
            proof {
                assert(route@ =~= up@.subrange(k as int, up@.len() as int).reverse());
            }
        }
        proof {
            assert(up@.subrange(0, up@.len() as int) =~= up@);
        }
        route
    }

    /// Whether `id` and all its ancestors are live and shown.
    pub fn is_visible(&self, id: WidgetId) -> (r: bool)
        requires
            self.well_formed(),
        ensures
            r == self.shown(id),
    {
        let mut current = id;
        let ghost mut fuel: nat = (self.depth@)(id.slot() as int) + 1;
        loop
            invariant
                self.well_formed(),
                fuel >= 1,
                self@.live(current) ==> fuel == (self.depth@)(current.slot() as int) + 1,
                all_shown(self@, ancestry(self@, current, fuel)) == self.shown(id),
            decreases fuel,
        {
            proof {
                lemma_ancestry_head(self@, current, fuel);
            }
            match self.node_flags(current) {
                None => {
                    proof {
                        assert(!shown_at(self@, ancestry(self@, current, fuel)[0]));
                    }
                    return false;
                },
                Some((visible, _)) => {
                    if !visible {
                        proof {
                            assert(!shown_at(self@, ancestry(self@, current, fuel)[0]));
                        }
                        return false;
                    }
                },
            }
            match self.parent(current) {
                Some(p) => {
                    proof {
                        if current == self@.root {
                            assert(false);
                        }
                        self.lemma_parent_link(current);
                        let rest = ancestry(self@, p, (fuel - 1) as nat);
                        assert(ancestry(self@, current, fuel) == seq![current] + rest);
                        assert(all_shown(self@, seq![current] + rest) == all_shown(self@, rest)) by {
                            assert forall|k: int| 0 <= k < rest.len() implies #[trigger] (seq![current] + rest)[k + 1] == rest[k] by {}
                            if all_shown(self@, rest) {
                                assert forall|k: int| 0 <= k < (seq![current] + rest).len() implies shown_at(self@, #[trigger] (seq![current] + rest)[k]) by {
                                    if k > 0 {
                                        assert((seq![current] + rest)[k] == rest[k - 1]);
                                    }
                                }
                            }
                            if all_shown(self@, seq![current] + rest) {
                                assert forall|k: int| 0 <= k < rest.len() implies shown_at(self@, #[trigger] rest[k]) by {
                                    assert((seq![current] + rest)[k + 1] == rest[k]);
                                }
                            }
                        }
                        fuel = (fuel - 1) as nat;
                    }
                    current = p;
                },
                None => {
                    proof {
                        assert(ancestry(self@, current, fuel) =~= seq![current]);
                        assert(shown_at(self@, seq![current][0]));
                    }
                    return true;
                },
            }
        }
    }

    /// Chooses the node an event goes to. A pointer event goes to the node
    /// capturing its pointer while that node is shown, and otherwise to `hit`,
    /// the topmost shown node under the pointer; a wheel event goes to `hit`;
    /// any other event goes to the focused node while it is shown.
    pub fn select_target(&self, pointer: Option<PointerId>, wheel: bool, hit: Option<WidgetId>) -> (r:
        Option<WidgetId>)
        requires
            self.well_formed(),
        ensures
            r == match pointer {
                Some(p) => match target_of(self@.captures, p) {
                    Some(c) => if self.shown(c) {
                        Some(c)
                    } else {
                        hit
                    },
                    None => hit,
                },
                None => if wheel {
                    hit
                } else {
                    match self@.focused {
                        Some(f) => if self.shown(f) {
                            Some(f)
                        } else {
                            None
                        },
                        None => None,
                    }
                },
            },
    {
        match pointer {
            Some(p) => match self.pointer_capture(p) {
                Some(c) => if self.is_visible(c) {
                    Some(c)
                } else {
                    hit
                },
                None => hit,
            },
            None => if wheel {
                hit
            } else {
                match self.focused_widget() {
                    Some(f) => if self.is_visible(f) {
                        Some(f)
                    } else {
                        None
                    },
                    None => None,
                }
            },
        }
    }

    /// Moves the hover of `pointer` to `next`, the topmost shown node under
    /// it. When the hovered node changes, returns the node the pointer leaves
    /// (the previously hovered one, if it is still shown) and the node it
    /// enters (`next`); otherwise nothing changes and neither is returned.
    pub fn move_hover(&mut self, pointer: PointerId, next: Option<WidgetId>) -> (r: (
        Option<WidgetId>,
        Option<WidgetId>,
    ))
        requires
            old(self).well_formed(),
        ensures
            final(self).well_formed(),
            target_of(old(self)@.hovered, pointer) == next ==> final(self)@ == old(self)@ && r == (
                None::<WidgetId>,
                None::<WidgetId>,
            ),
            target_of(old(self)@.hovered, pointer) != next ==> {
                &&& final(self)@ == (RuntimeView {
                    hovered: match next {
                        Some(w) => with_target(old(self)@.hovered, pointer, w),
                        None => without_pointer(old(self)@.hovered, pointer),
                    },
                    ..old(self)@
                })
                &&& r.0 == match target_of(old(self)@.hovered, pointer) {
                    Some(p) => if old(self).shown(p) {
                        Some(p)
                    } else {
                        None
                    },
                    None => None,
                }
                &&& r.1 == next
            },
    {
        let previous = self.hovered_widget(pointer);
        if previous == next {
            return (None, None);
        }
        let leave = match previous {
            Some(p) => if self.is_visible(p) {
                Some(p)
            } else {
                None
            },
            None => None,
        };
        self.set_hovered_widget(pointer, next);
        (leave, next)
    }

    fn collect_focusable(&self, id: WidgetId, out: &mut Vec<WidgetId>)
        requires
            self.well_formed(),
            self@.live(id),
        ensures
            final(out)@ == old(out)@ + focus_order(self@, id, self.fuel(id)),
        decreases self.fuel(id),
    {
        let ghost v = self@;
        let node = match &self.nodes[id.index() as usize].node {
            Some(n) => n,
            None => {
                return ;
            },
        };
        proof {
            assert(node@ == v.node(id));
            assert(self.slot_ok(id.slot() as int));
            assert(self.fuel(id) > 0);
        }
        if !node.visible {
            return ;
        }
        if node.accepts_focus {
            out.push(id);
        }
        let ghost base = out@;
        let ghost f = (self.fuel(id) - 1) as nat;
        let mut k: usize = 0;
        while k < node.children.len()
            invariant
                self.well_formed(),
                self@.live(id),
                node@ == self@.node(id),
                f + 1 == self.fuel(id),
                k <= node.children@.len(),
                out@ == base + focus_children(self@, node.children@.take(k as int), f),
            decreases node.children@.len() - k,
        {
            let c = node.children[k];
            proof {
                assert(node.children@.contains(c));
                self.lemma_child_link(id, c);
            }
            self.collect_focusable(c, out);
            proof {
                let t = node.children@.take(k + 1);
                assert(t.drop_last() =~= node.children@.take(k as int));
                assert(t.last() == c);
                assert(out@ =~= base + focus_children(self@, t, f));
            }
            k = k + 1;
        }
        proof {
            assert(node.children@.take(k as int) =~= node.children@);
            assert(out@ =~= old(out)@ + focus_order(self@, id, self.fuel(id)));
        }
    }

    /// The visible nodes that take focus, in depth-first tree order.
    pub fn focusable_nodes(&self) -> (r: Vec<WidgetId>)
        requires
            self.well_formed(),
        ensures
            r@ == self.focus_cycle(),
    {
        let mut out: Vec<WidgetId> = Vec::new();
        self.collect_focusable(self.root, &mut out);
        proof {
            assert(out@ =~= self.focus_cycle());
        }
        out
    }

    /// The node keyboard navigation moves focus to for `key`, if `key` is an
    /// unrepeated Tab (forward) or Shift+Tab (backward) and some visible node
    /// takes focus.
    pub fn tab_navigation_target(&self, key: &KeyEvent) -> (r: Option<WidgetId>)
        requires
            self.well_formed(),
        ensures
            r == if key.repeat || key.key@ != crate::input::KeyView::Named(NamedKey::Tab) || (
            key.modifiers@ != 0 && key.modifiers@ != 1) {
                None
            } else {
                tab_target(self.focus_cycle(), self@.focused, key.modifiers@ == 1)
            },
    {
        if key.repeat {
            return None;
        }
        match &key.key {
            Key::Named(NamedKey::Tab) => {},
            _ => {
                return None;
            },
        }
        let bits = key.modifiers.bits();
        if bits != 0 && bits != 1 {
            return None;
        }
        let focusable = self.focusable_nodes();
        tab_focus_target(focusable.as_slice(), self.focused, bits == 1)
    }

    /// The effects record an event starts from: no propagation stop, the
    /// current pointer capture and focus, and no requests.
    pub fn begin_effects(&self) -> (r: EventEffects)
        ensures
            r.pointer_capture@ == self@.captures,
            r.focused == self@.focused,
            !r.propagation_stopped,
            r.focus_request is None,
            !r.layout_requested,
            !r.redraw_requested,
    {
        EventEffects {
            propagation_stopped: false,
            pointer_capture: self.pointer_capture.clone(),
            focused: self.focused,
            focus_request: None,
            layout_requested: false,
            redraw_requested: false,
        }
    }

    /// What a focus request resolves to: a live node that takes focus, or
    /// no focus.
    pub fn resolve_focus_request(&self, request: FocusRequest) -> (r: Option<WidgetId>)
        ensures
            r == resolved_focus(self@, request),
    {
        match request {
            FocusRequest::Focus(id) => {
                match self.node_flags(id) {
                    Some((_, accepts_focus)) => {
                        if accepts_focus {
                            Some(id)
                        } else {
                            None
                        }
                    },
                    None => None,
                }
            },
            FocusRequest::Clear => None,
        }
    }

    /// Applies what handlers requested while an event was delivered: a
    /// released pointer loses its capture, the recorded capture replaces the
    /// runtime's, a requested frame or layout is recorded, and a focus
    /// request is resolved. Returns the focus to move to, if one was
    /// requested.
    pub fn finish_event(&mut self, released: Option<PointerId>, effects: EventEffects) -> (r: Option<
        Option<WidgetId>,
    >)
        requires
            old(self).well_formed(),
        ensures
            final(self).well_formed(),
            final(self)@ == finished(old(self)@, released, effects.pointer_capture@, effects.redraw_requested, effects.layout_requested),
            r == match effects.focus_request {
                Some(request) => Some(resolved_focus(old(self)@, request)),
                None => None,
            },
    {
        proof {
            Self::lemma_links_decide_well_formedness();
        }
        let mut captures = effects.pointer_capture;
        match released {
            Some(pointer) => captures.remove(pointer),
            None => {},
        }
        let requested = match effects.focus_request {
            Some(request) => Some(self.resolve_focus_request(request)),
            None => None,
        };
        self.pointer_capture = captures;
        if effects.redraw_requested {
            self.redraw_requested = true;
        }
        if effects.layout_requested {
            self.invalidate_layout();
        }
        requested
    }

    /// Moves keyboard focus to `requested` and requests a frame, returning
    /// the nodes to notify: the previously focused node, then the newly
    /// focused one. Nothing changes when focus stays where it is.
    pub fn change_focus(&mut self, requested: Option<WidgetId>) -> (r: Vec<WidgetId>)
        requires
            old(self).well_formed(),
        ensures
            final(self).well_formed(),
            requested == old(self)@.focused ==> final(self)@ == old(self)@ && r@ == Seq::<WidgetId>::empty(),
            requested != old(self)@.focused ==> {
                &&& final(self)@ == (RuntimeView { focused: requested, redraw: true, ..old(self)@ })
                &&& r@ == option_seq(old(self)@.focused) + option_seq(requested)
            },
    {
        proof {
            Self::lemma_links_decide_well_formedness();
        }
        let mut notify: Vec<WidgetId> = Vec::new();
        let same = match (requested, self.focused) {
            (Some(a), Some(b)) => a == b,
            (None, None) => true,
            _ => false,
        };
        if same {
            return notify;
        }
        match self.focused {
            Some(previous) => notify.push(previous),
            None => {},
        }
        match requested {
            Some(next) => notify.push(next),
            None => {},
        }
        self.focused = requested;
        self.redraw_requested = true;
        proof {
            assert(notify@ =~= option_seq(old(self)@.focused) + option_seq(requested));
        }
        notify
    }

    /// Keeps what a focus notification's handler requested: its pointer
    /// capture and whether it asked for a frame.
    pub fn absorb_focus_effects(&mut self, effects: EventEffects)
        requires
            old(self).well_formed(),
        ensures
            final(self).well_formed(),
            final(self)@ == (RuntimeView {
                captures: effects.pointer_capture@,
                redraw: old(self)@.redraw || effects.redraw_requested,
                ..old(self)@
            }),
    {
        proof {
            Self::lemma_links_decide_well_formedness();
        }
        self.pointer_capture = effects.pointer_capture;
        if effects.redraw_requested {
            self.redraw_requested = true;
        }
    }

    fn set_visible(&mut self, id: WidgetId, visible: bool)
        requires
            old(self).well_formed(),
        ensures
            final(self).well_formed(),
            final(self)@ == with_visible(old(self)@, id, visible),
    {
        proof {
            Self::lemma_links_decide_well_formedness();
        }
        if self.contains(id) {
            let i = id.index() as usize;
            let mut n = self.nodes[i].node.take().unwrap();
            n.visible = visible;
            self.nodes[i].node = Some(n);
            proof {
                assert(self@.slots =~= with_visible(old(self)@, id, visible).slots);
                assert(self@.diagnostics =~= old(self)@.diagnostics);
            }
        }
    }

    /// Records the outcome of a node's layout: validates that `positioned`
    /// lists direct children of `id` in tree order, each at most once; then
    /// clears the node's invalidation, records whether its widget takes
    /// focus, hides every child and shows each positioned child as given.
    ///
    /// Fails with [`UiRuntimeError::InvalidWidgetId`] for a stale `id` and
    /// with [`UiRuntimeError::InvalidLayout`] for a child list out of tree
    /// order, changing nothing either way.
    pub fn apply_child_layout(
        &mut self,
        id: WidgetId,
        positioned: &[(WidgetId, bool)],
        accepts_focus: bool,
    ) -> (r: Result<(), UiRuntimeError>)
        requires
            old(self).well_formed(),
        ensures
            final(self).well_formed(),
            !old(self)@.live(id) ==> r == Err::<(), UiRuntimeError>(UiRuntimeError::InvalidWidgetId),
            old(self)@.live(id) && !in_tree_order(
                positioned@.map_values(|e: (WidgetId, bool)| e.0),
                old(self)@.node(id).children,
            ) ==> r == Err::<(), UiRuntimeError>(UiRuntimeError::InvalidLayout),
            r is Err ==> final(self)@ == old(self)@,
            r is Ok ==> final(self)@ == laid_out(old(self)@, id, positioned@, accepts_focus),
    {
        let children: Vec<WidgetId> = match self.children(id) {
            Some(c) => copy_ids(c),
            None => {
                return Err(UiRuntimeError::InvalidWidgetId);
            },
        };
        if !children_in_order(positioned, children.as_slice()) {
            return Err(UiRuntimeError::InvalidLayout);
        }
        proof {
            Self::lemma_links_decide_well_formedness();
        }
        let i = id.index() as usize;
        let mut n = self.nodes[i].node.take().unwrap();
        n.dirty = DirtyFlags { layout: false, paint: false, hit_test: false };
        n.accepts_focus = accepts_focus;
        self.nodes[i].node = Some(n);
        let ghost v1 = self@;
        proof {
            assert(self@.slots =~= with_layout_done(old(self)@, id, accepts_focus).slots);
            assert(self@.diagnostics =~= old(self)@.diagnostics);
        }
        let mut k: usize = 0;
        while k < children.len()
            invariant
                self.well_formed(),
                k <= children@.len(),
                self@ == all_hidden(v1, children@.take(k as int)),
            decreases children@.len() - k,
        {
            self.set_visible(children[k], false);
            proof {
                assert(children@.take(k + 1).drop_last() =~= children@.take(k as int));
            }
            k = k + 1;
        }
        proof {
            assert(children@.take(k as int) =~= children@);
        }
        let ghost v2 = self@;
        let mut j: usize = 0;
        while j < positioned.len()
            invariant
                self.well_formed(),
                j <= positioned@.len(),
                self@ == all_shown_as(v2, positioned@.take(j as int)),
            decreases positioned@.len() - j,
        {
            let (child, visible) = positioned[j];
            self.set_visible(child, visible);
            proof {
                assert(positioned@.take(j + 1).drop_last() =~= positioned@.take(j as int));
            }
            j = j + 1;
        }
        proof {
            assert(positioned@.take(j as int) =~= positioned@);
        }
        Ok(())
    }
}

/// The arena links of a slot: its generation and, when occupied, the node's
/// parent and children.
pub open spec fn links<W>(s: SlotView<W>) -> (u32, Option<(Option<WidgetId>, Seq<WidgetId>)>) {
    (
        s.generation,
        match s.node {
            Some(n) => Some((n.parent, n.children)),
            None => None,
        },
    )
}

/// Whether two arenas have the same slots with the same links.
pub open spec fn same_links<W>(a: Seq<SlotView<W>>, b: Seq<SlotView<W>>) -> bool {
    &&& a.len() == b.len()
    &&& forall|i: int| 0 <= i < a.len() ==> #[trigger] links(a[i]) == links(b[i])
}

/// Whether handle `x` can never name a node again: its slot has moved past
/// its generation, or the slot is empty with its generations exhausted and
/// is never reused.
pub open spec fn expired<W>(v: RuntimeView<W>, x: WidgetId) -> bool {
    &&& x.slot() < v.slots.len()
    &&& {
        ||| v.slots[x.slot() as int].generation > x.gen()
        ||| {
            &&& v.slots[x.slot() as int].generation == x.gen()
            &&& x.gen() == u32::MAX
            &&& v.slots[x.slot() as int].node is None
            &&& !v.free.contains(x.slot())
        }
    }
}

proof fn lemma_vacated_keeps_expired<W>(u: RuntimeView<W>, y: WidgetId, x: WidgetId)
    requires
        expired(u, x),
    ensures
        expired(vacated(u, y), x),
{
    let r = vacated(u, y);
    if y.slot() != x.slot() {
        assert(r.slots[x.slot() as int] == u.slots[x.slot() as int]);
        if r.free.contains(x.slot()) {
            let k = choose|k: int| 0 <= k < r.free.len() && r.free[k] == x.slot();
            if k < u.free.len() {
                assert(u.free[k] == x.slot());
            }
        }
    }
}

proof fn lemma_vacated_expires<W>(u: RuntimeView<W>, x: WidgetId)
    requires
        u.live(x),
        vacancies_ok(u),
    ensures
        expired(vacated(u, x), x),
{
    let r = vacated(u, x);
    assert(!u.free.contains(x.slot())) by {
        if u.free.contains(x.slot()) {
            let k = choose|k: int| 0 <= k < u.free.len() && u.free[k] == x.slot();
            assert(u.slots[u.free[k] as int].node is None);
        }
    }
}

proof fn lemma_vacated_all_keeps_expired<W>(v: RuntimeView<W>, ids: Seq<WidgetId>, x: WidgetId)
    requires
        expired(v, x),
    ensures
        expired(vacated_all(v, ids), x),
    decreases ids.len(),
{
    if ids.len() > 0 {
        lemma_vacated_all_keeps_expired(v, ids.drop_last(), x);
        lemma_vacated_keeps_expired(vacated_all(v, ids.drop_last()), ids.last(), x);
    }
}

proof fn lemma_vacated_all_expires<W>(v: RuntimeView<W>, ids: Seq<WidgetId>, k: int)
    requires
        0 <= k < ids.len(),
        v.live(ids[k]),
        vacancies_ok(v),
        !hits(ids.take(k), ids[k].slot() as int),
    ensures
        expired(vacated_all(v, ids), ids[k]),
    decreases ids.len(),
{
    let x = ids[k];
    if k == ids.len() - 1 {
        let rest = ids.drop_last();
        assert(rest =~= ids.take(k));
        lemma_vacated_all(v, rest);
        let u = vacated_all(v, rest);
        assert(u.slots[x.slot() as int] == v.slots[x.slot() as int]);
        assert(u.live(x));
        lemma_vacated_expires(u, x);
    } else {
        let rest = ids.drop_last();
        assert(rest[k] == x);
        assert(rest.take(k) =~= ids.take(k));
        lemma_vacated_all_expires(v, rest, k);
        lemma_vacated_keeps_expired(vacated_all(v, rest), ids.last(), x);
    }
}

impl<W> UiRuntime<W> {
    /// The ancestry of a live node, followed for as many links as the node is
    /// deep: it starts at the node, ends at the root, every node on it is
    /// live, and each is the parent of the one before it.
    proof fn lemma_ancestry_shape(&self, x: WidgetId)
        requires
            self.well_formed(),
            self@.live(x),
        ensures
            self.ancestors_of(x).len() == (self.depth@)(x.slot() as int) + 1,
            self.ancestors_of(x)[0] == x,
            self.ancestors_of(x).last() == self@.root,
            forall|j: int|
                0 <= j < self.ancestors_of(x).len() ==> self@.live(#[trigger] self.ancestors_of(x)[j]),
            forall|j: int|
                0 <= j < self.ancestors_of(x).len() - 1 ==> self@.node(#[trigger] self.ancestors_of(
                    x,
                )[j]).parent == Some(self.ancestors_of(x)[j + 1]),
            forall|j: int|
                0 <= j < self.ancestors_of(x).len() ==> (self.depth@)(
                    #[trigger] self.ancestors_of(x)[j].slot() as int,
                ) == (self.depth@)(x.slot() as int) - j,
        decreases (self.depth@)(x.slot() as int),
    {
        broadcast use WidgetId::lemma_at_parts, WidgetId::lemma_id_parts;
        let v = self@;
        let d = (self.depth@)(x.slot() as int);
        if x == v.root {
            assert(self.ancestors_of(x) =~= seq![x]);
        } else {
            self.lemma_parent_link(x);
            let p = v.node(x).parent->0;
            self.lemma_ancestry_shape(p);
            assert(self.ancestors_of(x) =~= seq![x] + self.ancestors_of(p));
            let a = self.ancestors_of(x);
            let b = self.ancestors_of(p);
            assert forall|j: int| 0 <= j < a.len() implies v.live(#[trigger] a[j]) by {
                if j > 0 {
                    assert(a[j] == b[j - 1]);
                }
            }
            assert forall|j: int| 0 <= j < a.len() - 1 implies v.node(#[trigger] a[j]).parent
                == Some(a[j + 1]) by {
                if j > 0 {
                    assert(a[j] == b[j - 1]);
                    assert(a[j + 1] == b[j]);
                }
            }
            assert forall|j: int| 0 <= j < a.len() implies (self.depth@)(
                #[trigger] a[j].slot() as int,
            ) == d - j by {
                if j > 0 {
                    assert(a[j] == b[j - 1]);
                }
            }
        }
        if x != v.root {
            assert(d >= 1);
        } else {
            assert(d == 0);
        }
    }

    /// A node on the ancestry of a node in the subtree of `id`, walking up
    /// from it, reaches `id`.
    proof fn lemma_subtree_ancestry(&self, id: WidgetId, x: WidgetId)
        requires
            self.well_formed(),
            self@.live(id),
            self.subtree_of(id).contains(x),
        ensures
            self.ancestors_of(x).contains(id),
        decreases (self.depth@)(x.slot() as int),
    {
        broadcast use WidgetId::lemma_at_parts, WidgetId::lemma_id_parts;
        self.lemma_subtree_members(id, self.fuel(id), x);
        if x == id {
            lemma_ancestry_head(self@, x, (self.depth@)(x.slot() as int) + 1);
        } else {
            let p = self@.node(x).parent->0;
            self.lemma_parent_link(x);
            self.lemma_subtree_ancestry(id, p);
            assert(self.ancestors_of(x) =~= seq![x] + self.ancestors_of(p));
            let k = choose|k: int| 0 <= k < self.ancestors_of(p).len() && self.ancestors_of(p)[k] == id;
            assert(self.ancestors_of(x)[k + 1] == id);
        }
    }

    /// A member of the focus order below `id` takes focus, is live, and lies
    /// below `id` on a path of nodes that are all shown.
    proof fn lemma_focus_member(&self, id: WidgetId, x: WidgetId)
        requires
            self.well_formed(),
            self@.live(id),
            focus_order(self@, id, self.fuel(id)).contains(x),
        ensures
            self@.live(x),
            self@.node(x).accepts_focus,
            exists|k: int|
                0 <= k < self.ancestors_of(x).len() && self.ancestors_of(x)[k] == id && forall|j: int|
                    0 <= j <= k ==> shown_at(self@, #[trigger] self.ancestors_of(x)[j]),
        decreases self.fuel(id),
    {
        broadcast use WidgetId::lemma_at_parts, WidgetId::lemma_id_parts;
        let v = self@;
        assert(self.slot_ok(id.slot() as int));
        assert(v.id_at(id.slot() as int) == id);
        let g = self.fuel(id);
        let cs = v.node(id).children;
        let own = if v.node(id).accepts_focus { seq![id] } else { Seq::<WidgetId>::empty() };
        let rest = focus_children(v, cs, (g - 1) as nat);
        assert(focus_order(v, id, g) == own + rest);
        if own.contains(x) {
            assert(x == id);
            self.lemma_ancestry_shape(x);
            assert(shown_at(v, self.ancestors_of(x)[0]));
        } else {
            assert(rest.contains(x)) by {
                let k = choose|k: int| 0 <= k < (own + rest).len() && (own + rest)[k] == x;
                if k < own.len() {
                    assert(own[k] == x);
                } else {
                    assert(rest[k - own.len()] == x);
                }
            }
            lemma_focus_children_member(v, cs, (g - 1) as nat, x);
            let k = choose|k: int| 0 <= k < cs.len() && #[trigger] focus_order(v, cs[k], (g - 1) as nat).contains(x);
            let c = cs[k];
            assert(cs.contains(c));
            self.lemma_child_link(id, c);
            self.lemma_focus_member(c, x);
            self.lemma_ancestry_shape(x);
            let a = self.ancestors_of(x);
            let m = choose|m: int| 0 <= m < a.len() && a[m] == c && forall|j: int|
                0 <= j <= m ==> shown_at(v, #[trigger] a[j]);
            assert(m < a.len() - 1) by {
                if m == a.len() - 1 {
                    assert(a[m] == v.root);
                }
            }
            assert(v.node(a[m]).parent == Some(a[m + 1]));
            assert(a[m + 1] == id);
            assert forall|j: int| 0 <= j <= m + 1 implies shown_at(v, #[trigger] a[j]) by {
                if j == m + 1 {
                    assert(v.node(id).visible);
                }
            }
        }
    }

    /// A node that takes focus, below `id` on a path of shown nodes, belongs
    /// to the focus order below `id`.
    proof fn lemma_focus_includes(&self, x: WidgetId, k: int)
        requires
            self.well_formed(),
            self@.live(x),
            self@.node(x).accepts_focus,
            0 <= k < self.ancestors_of(x).len(),
            forall|j: int| 0 <= j <= k ==> shown_at(self@, #[trigger] self.ancestors_of(x)[j]),
        ensures
            focus_order(self@, self.ancestors_of(x)[k], self.fuel(self.ancestors_of(x)[k])).contains(
                x,
            ),
        decreases k,
    {
        broadcast use WidgetId::lemma_at_parts, WidgetId::lemma_id_parts;
        let v = self@;
        self.lemma_ancestry_shape(x);
        let a = self.ancestors_of(x);
        let id = a[k];
        assert(shown_at(v, a[k]));
        assert(self.slot_ok(id.slot() as int));
        assert(v.id_at(id.slot() as int) == id);
        let g = self.fuel(id);
        let cs = v.node(id).children;
        let own = if v.node(id).accepts_focus { seq![id] } else { Seq::<WidgetId>::empty() };
        let rest = focus_children(v, cs, (g - 1) as nat);
        assert(focus_order(v, id, g) == own + rest);
        if k == 0 {
            assert(own[0] == x);
            assert((own + rest)[0] == x);
        } else {
            self.lemma_focus_includes(x, k - 1);
            let c = a[k - 1];
            assert(shown_at(v, a[k - 1]));
            assert(v.node(c).parent == Some(id));
            assert(c != v.root) by {
                if c == v.root {
                    assert(v.node(v.root).parent is None);
                }
            }
            self.lemma_parent_link(c);
            self.lemma_child_link(id, c);
            let i = choose|i: int| 0 <= i < cs.len() && cs[i] == c;
            assert(focus_order(v, cs[i], (g - 1) as nat).contains(x));
            lemma_focus_children_member(v, cs, (g - 1) as nat, x);
            let t = choose|t: int| 0 <= t < rest.len() && rest[t] == x;
            assert((own + rest)[own.len() + t] == x);
        }
    }

    /// A live node is less deep than the arena has slots: its ancestry
    /// visits that many distinct slots.
    proof fn lemma_depth_below_slot_count(&self, x: WidgetId)
        requires
            self.well_formed(),
            self@.live(x),
        ensures
            (self.depth@)(x.slot() as int) < self@.slots.len(),
    {
        broadcast use WidgetId::lemma_at_parts, WidgetId::lemma_id_parts;
        self.lemma_ancestry_shape(x);
        let a = self.ancestors_of(x);
        let v = self@;
        let d = (self.depth@)(x.slot() as int);
        let slots = Seq::new(a.len(), |j: int| a[j].slot() as int);
        assert(slots.no_duplicates()) by {
            assert forall|i: int, j: int|
                0 <= i < slots.len() && 0 <= j < slots.len() && i != j implies slots[i]
                != slots[j] by {
                if slots[i] == slots[j] {
                    assert(v.live(a[i]) && v.live(a[j]));
                    assert(WidgetId::at(a[i].slot(), a[i].gen()) == a[i]);
                    assert(WidgetId::at(a[j].slot(), a[j].gen()) == a[j]);
                    assert(a[i] == a[j]);
                    assert((self.depth@)(a[i].slot() as int) == d - i);
                    assert((self.depth@)(a[j].slot() as int) == d - j);
                }
            }
        }
        slots.unique_seq_to_set();
        vstd::set_lib::lemma_int_range(0, v.slots.len() as int);
        assert(slots.to_set().subset_of(vstd::set_lib::set_int_range(0, v.slots.len() as int))) by {
            assert forall|t: int| slots.to_set().contains(t) implies vstd::set_lib::set_int_range(
                0,
                v.slots.len() as int,
            ).contains(t) by {
                let j = choose|j: int| 0 <= j < slots.len() && slots[j] == t;
                assert(v.live(a[j]));
            }
        }
        vstd::set_lib::lemma_len_subset(
            slots.to_set(),
            vstd::set_lib::set_int_range(0, v.slots.len() as int),
        );
    }

    /// Below a node, the focus order does not depend on the fuel once the
    /// fuel covers every level down to `bound`, a depth no live node reaches.
    proof fn lemma_focus_fuel(&self, id: WidgetId, f: nat, g: nat, bound: int)
        requires
            self.well_formed(),
            self@.live(id),
            forall|x: WidgetId| #[trigger] self@.live(x) ==> (self.depth@)(x.slot() as int) < bound,
            f >= bound - (self.depth@)(id.slot() as int),
            g >= bound - (self.depth@)(id.slot() as int),
        ensures
            focus_order(self@, id, f) == focus_order(self@, id, g),
        decreases bound - (self.depth@)(id.slot() as int), 1int, 0int,
    {
        let v = self@;
        let cs = v.node(id).children;
        self.lemma_focus_children_fuel(id, cs.len() as int, f, g, bound);
        assert(cs.take(cs.len() as int) =~= cs);
    }

    proof fn lemma_focus_children_fuel(&self, id: WidgetId, k: int, f: nat, g: nat, bound: int)
        requires
            self.well_formed(),
            self@.live(id),
            forall|x: WidgetId| #[trigger] self@.live(x) ==> (self.depth@)(x.slot() as int) < bound,
            f >= bound - (self.depth@)(id.slot() as int),
            g >= bound - (self.depth@)(id.slot() as int),
            0 <= k <= self@.node(id).children.len(),
        ensures
            focus_children(self@, self@.node(id).children.take(k), (f - 1) as nat) == focus_children(
                self@,
                self@.node(id).children.take(k),
                (g - 1) as nat,
            ),
        decreases bound - (self.depth@)(id.slot() as int), 0int, k,
    {
        let v = self@;
        let cs = v.node(id).children;
        if k > 0 {
            let t = cs.take(k);
            assert(t.drop_last() =~= cs.take(k - 1));
            self.lemma_focus_children_fuel(id, k - 1, f, g, bound);
            let c = t.last();
            assert(cs.contains(c)) by {
                assert(cs[k - 1] == c);
            }
            self.lemma_child_link(id, c);
            self.lemma_focus_fuel(c, (f - 1) as nat, (g - 1) as nat, bound);
        }
    }

    /// Below a node, the subtree order does not depend on the fuel once the
    /// fuel covers every level down to `bound`, a depth no live node reaches.
    proof fn lemma_subtree_fuel(&self, id: WidgetId, f: nat, g: nat, bound: int)
        requires
            self.well_formed(),
            self@.live(id),
            forall|x: WidgetId| #[trigger] self@.live(x) ==> (self.depth@)(x.slot() as int) < bound,
            f >= bound - (self.depth@)(id.slot() as int),
            g >= bound - (self.depth@)(id.slot() as int),
        ensures
            subtree_order(self@, id, f) == subtree_order(self@, id, g),
        decreases bound - (self.depth@)(id.slot() as int), 1int, 0int,
    {
        let v = self@;
        let cs = v.node(id).children;
        self.lemma_subtree_children_fuel(id, cs.len() as int, f, g, bound);
        assert(cs.take(cs.len() as int) =~= cs);
    }

    proof fn lemma_subtree_children_fuel(&self, id: WidgetId, k: int, f: nat, g: nat, bound: int)
        requires
            self.well_formed(),
            self@.live(id),
            forall|x: WidgetId| #[trigger] self@.live(x) ==> (self.depth@)(x.slot() as int) < bound,
            f >= bound - (self.depth@)(id.slot() as int),
            g >= bound - (self.depth@)(id.slot() as int),
            0 <= k <= self@.node(id).children.len(),
        ensures
            children_order(self@, self@.node(id).children.take(k), (f - 1) as nat) == children_order(
                self@,
                self@.node(id).children.take(k),
                (g - 1) as nat,
            ),
        decreases bound - (self.depth@)(id.slot() as int), 0int, k,
    {
        let v = self@;
        let cs = v.node(id).children;
        if k > 0 {
            let t = cs.take(k);
            assert(t.drop_last() =~= cs.take(k - 1));
            self.lemma_subtree_children_fuel(id, k - 1, f, g, bound);
            let c = t.last();
            assert(cs.contains(c)) by {
                assert(cs[k - 1] == c);
            }
            self.lemma_child_link(id, c);
            self.lemma_subtree_fuel(c, (f - 1) as nat, (g - 1) as nat, bound);
        }
    }

    /// A depth that no live node reaches, at most the number of slots.
    proof fn lemma_depth_limit(&self) -> (bound: int)
        requires
            self.well_formed(),
        ensures
            bound <= self@.slots.len(),
            bound <= self.depth_bound@,
            forall|x: WidgetId| #[trigger] self@.live(x) ==> (self.depth@)(x.slot() as int) < bound,
    {
        let v = self@;
        let bound = if self.depth_bound@ < v.slots.len() {
            self.depth_bound@ as int
        } else {
            v.slots.len() as int
        };
        assert forall|x: WidgetId| #[trigger] v.live(x) implies (self.depth@)(x.slot() as int) < bound by {
            self.lemma_depth_below_slot_count(x);
            assert(self.slot_ok(x.slot() as int));
            broadcast use WidgetId::lemma_at_parts, WidgetId::lemma_id_parts;
            assert(v.id_at(x.slot() as int) == x);
        }
        bound
    }

    /// Walking down from `id` along the ancestry of `x` stays in the subtree
    /// of `id`.
    proof fn lemma_ancestry_subtree(&self, id: WidgetId, x: WidgetId, k: int, j: int)
        requires
            self.well_formed(),
            self@.live(x),
            0 <= j <= k < self.ancestors_of(x).len(),
            self.ancestors_of(x)[k] == id,
        ensures
            self.subtree_of(id).contains(self.ancestors_of(x)[j]),
        decreases k - j,
    {
        broadcast use WidgetId::lemma_at_parts, WidgetId::lemma_id_parts;
        self.lemma_ancestry_shape(x);
        let a = self.ancestors_of(x);
        let v = self@;
        assert(v.live(a[k]));
        if j == k {
            assert(self.slot_ok(id.slot() as int));
            assert(v.id_at(id.slot() as int) == id);
            let f = (self.fuel(id) - 1) as nat;
            let t = children_order(v, v.node(id).children, f);
            assert(self.subtree_of(id) == t.push(id));
            assert(t.push(id)[t.len() as int] == id);
        } else {
            self.lemma_ancestry_subtree(id, x, k, j + 1);
            let y = a[j];
            assert(v.live(y));
            assert(v.node(y).parent == Some(a[j + 1]));
            assert(y != v.root) by {
                if y == v.root {
                    assert(v.node(v.root).parent is None);
                }
            }
            self.lemma_parent_link(y);
            self.lemma_subtree_closed(id, a[j + 1], y);
        }
    }
}

/// A removed handle never names a node again. Removing a subtree expires
/// the handle of every node in it; appending a node, removing a subtree and
/// invalidating the layout keep every expired handle expired; and an
/// expired handle is stale.
pub proof fn law_removed_handles_stay_stale<W>(
    rt: &UiRuntime<W>,
    node: WidgetId,
    parent: WidgetId,
    child: W,
    x: WidgetId,
)
    requires
        rt.well_formed(),
    ensures
        rt@.live(node) && node != rt@.root && rt.subtree_of(node).contains(x) ==> expired(
            invalidated(vacated_all(detached(rt@, node), rt.subtree_of(node))),
            x,
        ),
        rt@.live(node) && node != rt@.root && expired(rt@, x) ==> expired(
            invalidated(vacated_all(detached(rt@, node), rt.subtree_of(node))),
            x,
        ),
        rt@.live(parent) && rt.has_capacity() && expired(rt@, x) ==> expired(
            invalidated(
                with_child(allocated(rt@, child, Some(parent)), parent, allocated_id(rt@)),
            ),
            x,
        ),
        expired(rt@, x) ==> expired(invalidated(rt@), x),
        expired(rt@, x) ==> !rt@.live(x),
{
    broadcast use WidgetId::lemma_at_parts, WidgetId::lemma_id_parts;
    let v0 = rt@;
    if rt@.live(node) && node != rt@.root {
        let st = rt.subtree_of(node);
        let v1 = detached(v0, node);
        rt.lemma_parent_link(node);
        let p = v0.node(node).parent->0;
        assert(rt.slot_ok(p.slot() as int));
        assert(v0.id_at(p.slot() as int) == p);
        assert(vacancies_ok(v1)) by {
            assert(rt.free_ok());
            assert forall|k: int| 0 <= k < v1.free.len() implies {
                &&& #[trigger] v1.free[k] < v1.slots.len()
                &&& v1.slots[v1.free[k] as int].node is None
            } by {
                assert(v0.free[k] != p.slot());
            }
        }
        lemma_vacated_all(v1, st);
        if st.contains(x) {
            let k = st.index_of_first(x)->0;
            st.index_of_first_ensures(x);
            rt.lemma_subtree_members(node, rt.fuel(node), x);
            assert(v1.slots[x.slot() as int].generation == v0.slots[x.slot() as int].generation);
            assert(v1.live(x));
            assert(!hits(st.take(k), x.slot() as int)) by {
                if hits(st.take(k), x.slot() as int) {
                    let j = choose|j: int| 0 <= j < st.take(k).len() && #[trigger] st.take(k)[j].slot() == x.slot();
                    assert(st.contains(st[j]));
                    rt.lemma_subtree_members(node, rt.fuel(node), st[j]);
                    assert(WidgetId::at(x.slot(), x.gen()) == x);
                    assert(WidgetId::at(st[j].slot(), st[j].gen()) == st[j]);
                    assert(st[j] == x);
                }
            }
            lemma_vacated_all_expires(v1, st, k);
        }
        if expired(v0, x) {
            assert(expired(v1, x)) by {
                if x.slot() == p.slot() {
                    assert(v1.slots[x.slot() as int].generation == v0.slots[x.slot() as int].generation);
                }
            }
            lemma_vacated_all_keeps_expired(v1, st, x);
        }
    }
    if rt@.live(parent) && rt.has_capacity() && expired(v0, x) {
        let a = allocated(v0, child, Some(parent));
        let id = allocated_id(v0);
        assert(expired(a, x)) by {
            if v0.free.len() > 0 {
                let last = v0.free.last();
                assert(v0.free.contains(last)) by {
                    assert(v0.free[v0.free.len() - 1] == last);
                }
                if a.free.contains(x.slot()) {
                    let k = choose|k: int| 0 <= k < a.free.len() && a.free[k] == x.slot();
                    assert(v0.free[k] == x.slot());
                }
            }
        }
        assert(rt.slot_ok(parent.slot() as int));
    }
}

/// Appending a node keeps every live node live and hands out a fresh handle:
/// one that named no live node before and differs from every expired handle,
/// even where the node takes a vacated slot. The new node is a leaf whose
/// parent is `parent`, and it becomes the last child of `parent`.
pub proof fn law_appending_keeps_existing_handles<W>(rt: &UiRuntime<W>, parent: WidgetId, child: W, y: WidgetId)
    requires
        rt.well_formed(),
        rt@.live(parent),
        rt.has_capacity(),
    ensures
        !rt@.live(allocated_id(rt@)),
        expired(rt@, y) ==> y != allocated_id(rt@),
        rt@.live(y) ==> invalidated(
            with_child(allocated(rt@, child, Some(parent)), parent, allocated_id(rt@)),
        ).live(y),
        invalidated(
            with_child(allocated(rt@, child, Some(parent)), parent, allocated_id(rt@)),
        ).live(allocated_id(rt@)),
        invalidated(
            with_child(allocated(rt@, child, Some(parent)), parent, allocated_id(rt@)),
        ).node(allocated_id(rt@)).parent == Some(parent),
        invalidated(
            with_child(allocated(rt@, child, Some(parent)), parent, allocated_id(rt@)),
        ).node(allocated_id(rt@)).children == Seq::<WidgetId>::empty(),
        invalidated(
            with_child(allocated(rt@, child, Some(parent)), parent, allocated_id(rt@)),
        ).node(parent).children == rt@.node(parent).children.push(allocated_id(rt@)),
{
    broadcast use WidgetId::lemma_at_parts, WidgetId::lemma_id_parts;
    let v0 = rt@;
    let id = allocated_id(v0);
    assert(rt.free_ok());
    assert(rt.slot_ok(parent.slot() as int));
    if v0.free.len() > 0 {
        assert(v0.free[v0.free.len() - 1] == v0.free.last());
        assert(v0.free.contains(v0.free.last()));
    }
    assert(id.slot() != parent.slot());
}

/// A member of the focus order of `children` belongs to the focus order of
/// one of them, and conversely.
proof fn lemma_focus_children_member<W>(
    v: RuntimeView<W>,
    children: Seq<WidgetId>,
    fuel: nat,
    x: WidgetId,
)
    ensures
        focus_children(v, children, fuel).contains(x) <==> exists|k: int|
            0 <= k < children.len() && #[trigger] focus_order(v, children[k], fuel).contains(x),
    decreases children.len(),
{
    if children.len() > 0 {
        let rest = children.drop_last();
        lemma_focus_children_member(v, rest, fuel, x);
        let a = focus_children(v, rest, fuel);
        let b = focus_order(v, children.last(), fuel);
        assert((a + b).contains(x) <==> a.contains(x) || b.contains(x)) by {
            if (a + b).contains(x) {
                let k = choose|k: int| 0 <= k < (a + b).len() && (a + b)[k] == x;
                if k < a.len() {
                    assert(a[k] == x);
                } else {
                    assert(b[k - a.len()] == x);
                }
            }
            if a.contains(x) {
                let k = choose|k: int| 0 <= k < a.len() && a[k] == x;
                assert((a + b)[k] == x);
            }
            if b.contains(x) {
                let k = choose|k: int| 0 <= k < b.len() && b[k] == x;
                assert((a + b)[a.len() + k] == x);
            }
        }
        if a.contains(x) {
            let k = choose|k: int| 0 <= k < rest.len() && #[trigger] focus_order(v, rest[k], fuel).contains(x);
            assert(children[k] == rest[k]);
        }
        if b.contains(x) {
            assert(children[children.len() - 1] == children.last());
        }
        if exists|k: int| 0 <= k < children.len() && #[trigger] focus_order(v, children[k], fuel).contains(x) {
            let k = choose|k: int| 0 <= k < children.len() && #[trigger] focus_order(v, children[k], fuel).contains(x);
            if k < children.len() - 1 {
                assert(rest[k] == children[k]);
            }
        }
    }
}


/// An event route runs from the root down to its target, each node on it a
/// child of the one before it, and a stale target routes to itself alone. A
/// node counts as shown exactly when every node on its route is live and was
/// shown by its parent's last layout.
pub proof fn law_routes_descend_from_the_root<W>(rt: &UiRuntime<W>, target: WidgetId)
    requires
        rt.well_formed(),
    ensures
        rt.route_of(target).len() >= 1,
        rt.route_of(target).last() == target,
        !rt@.live(target) ==> rt.route_of(target) == seq![target],
        rt@.live(target) ==> rt.route_of(target)[0] == rt@.root,
        forall|k: int|
            0 <= k < rt.route_of(target).len() - 1 ==> rt@.live(rt.route_of(target)[k + 1])
                && rt@.node(#[trigger] rt.route_of(target)[k + 1]).parent == Some(
                rt.route_of(target)[k],
            ),
        rt.shown(target) <==> forall|k: int|
            0 <= k < rt.route_of(target).len() ==> shown_at(rt@, #[trigger] rt.route_of(target)[k]),
{
    let a = rt.ancestors_of(target);
    let r = rt.route_of(target);
    lemma_ancestry_head(rt@, target, (rt.depth@)(target.slot() as int) + 1);
    assert(r =~= a.reverse());
    if rt@.live(target) {
        rt.lemma_ancestry_shape(target);
        assert forall|k: int| 0 <= k < r.len() - 1 implies rt@.live(r[k + 1]) && rt@.node(
            #[trigger] r[k + 1],
        ).parent == Some(r[k]) by {
            assert(r[k + 1] == a[a.len() - 2 - k]);
            assert(r[k] == a[a.len() - 1 - k]);
        }
    } else {
        assert(a =~= seq![target]);
    }
    assert(rt.shown(target) <==> forall|k: int| 0 <= k < r.len() ==> shown_at(rt@, #[trigger] r[k])) by {
        if rt.shown(target) {
            assert forall|k: int| 0 <= k < r.len() implies shown_at(rt@, #[trigger] r[k]) by {
                assert(r[k] == a[a.len() - 1 - k]);
            }
        }
        if forall|k: int| 0 <= k < r.len() ==> shown_at(rt@, #[trigger] r[k]) {
            assert forall|k: int| 0 <= k < a.len() implies shown_at(rt@, #[trigger] a[k]) by {
                assert(a[k] == r[r.len() - 1 - k]);
            }
        }
    }
}

/// The subtree of a live node holds exactly the live nodes whose route passes
/// through it: the node itself and all its descendants.
pub proof fn law_subtrees_hold_exactly_the_descendants<W>(rt: &UiRuntime<W>, node: WidgetId, x: WidgetId)
    requires
        rt.well_formed(),
        rt@.live(node),
    ensures
        rt.subtree_of(node).contains(x) <==> (rt@.live(x) && rt.route_of(x).contains(node)),
{
    let a = rt.ancestors_of(x);
    assert(rt.route_of(x) =~= a.reverse());
    if rt.subtree_of(node).contains(x) {
        rt.lemma_subtree_members(node, rt.fuel(node), x);
        rt.lemma_subtree_ancestry(node, x);
        let k = choose|k: int| 0 <= k < a.len() && a[k] == node;
        assert(rt.route_of(x)[a.len() - 1 - k] == node);
    }
    if rt@.live(x) && rt.route_of(x).contains(node) {
        let k = choose|k: int| 0 <= k < rt.route_of(x).len() && rt.route_of(x)[k] == node;
        assert(a[a.len() - 1 - k] == node);
        rt.lemma_ancestry_subtree(node, x, a.len() - 1 - k, 0);
        lemma_ancestry_head(rt@, x, (rt.depth@)(x.slot() as int) + 1);
    }
}

/// Keyboard navigation cycles through exactly the shown nodes that take
/// focus: a node is in the focus cycle when it takes focus and it and every
/// ancestor were shown by their parents' last layouts.
pub proof fn law_focus_cycle_holds_the_shown_focusable_nodes<W>(rt: &UiRuntime<W>, x: WidgetId)
    requires
        rt.well_formed(),
    ensures
        rt.focus_cycle().contains(x) <==> (rt.shown(x) && rt@.node(x).accepts_focus),
{
    let v = rt@;
    let root = v.root;
    let a = rt.ancestors_of(x);
    lemma_ancestry_head(v, x, (rt.depth@)(x.slot() as int) + 1);
    if rt.focus_cycle().contains(x) {
        rt.lemma_focus_member(root, x);
        rt.lemma_ancestry_shape(x);
        let k = choose|k: int| 0 <= k < a.len() && a[k] == root && forall|j: int|
            0 <= j <= k ==> shown_at(v, #[trigger] a[j]);
        assert(k == a.len() - 1) by {
            assert((rt.depth@)(a[k].slot() as int) == (rt.depth@)(x.slot() as int) - k);
        }
        assert(all_shown(v, a));
    }
    if rt.shown(x) && v.node(x).accepts_focus {
        assert(shown_at(v, a[0]));
        rt.lemma_ancestry_shape(x);
        assert forall|j: int| 0 <= j <= a.len() - 1 implies shown_at(v, #[trigger] a[j]) by {}
        rt.lemma_focus_includes(x, a.len() - 1);
    }
}

/// Keyboard navigation visits the shown nodes that take focus in tree order:
/// the focus cycle is the depth-first order from the root, every node before
/// its children and children in display order, skipping hidden subtrees. Any
/// depth limit of at least the number of arena slots reaches every node.
pub proof fn law_focus_cycle_is_in_tree_order<W>(rt: &UiRuntime<W>, fuel: nat)
    requires
        rt.well_formed(),
        fuel >= rt@.slots.len(),
    ensures
        rt.focus_cycle() == focus_order(rt@, rt@.root, fuel),
{
    let bound = rt.lemma_depth_limit();
    rt.lemma_focus_fuel(rt@.root, rt.fuel(rt@.root), fuel, bound);
}

/// The subtree of a live node lists the node after all its descendants:
/// each child's subtree in display order, then the node. Any depth limit of
/// at least the number of arena slots reaches every descendant.
pub proof fn law_subtrees_list_children_before_parents<W>(rt: &UiRuntime<W>, node: WidgetId, fuel: nat)
    requires
        rt.well_formed(),
        rt@.live(node),
        fuel >= rt@.slots.len(),
    ensures
        rt.subtree_of(node) == subtree_order(rt@, node, fuel),
{
    let bound = rt.lemma_depth_limit();
    rt.lemma_subtree_fuel(node, rt.fuel(node), fuel, bound);
}

/// The history after recording each of `ds` in turn, starting from `log`.
pub open spec fn recorded_in_turn(log: Seq<DiagnosticView>, ds: Seq<DiagnosticView>) -> Seq<
    DiagnosticView,
>
    decreases ds.len(),
{
    if ds.len() == 0 {
        log
    } else {
        recorded_in_turn(retained(log, ds[0]), ds.drop_first())
    }
}

/// The last `n` entries of `s`, or all of them when there are fewer.
pub open spec fn newest(s: Seq<DiagnosticView>, n: nat) -> Seq<DiagnosticView> {
    if s.len() <= n {
        s
    } else {
        s.subrange(s.len() - n, s.len() as int)
    }
}

proof fn lemma_newest_absorbs(a: Seq<DiagnosticView>, b: Seq<DiagnosticView>, n: nat)
    ensures
        newest(newest(a, n) + b, n) == newest(a + b, n),
{
    if a.len() > n {
        let x = a + b;
        let y = newest(a, n) + b;
        assert(y =~= x.subrange(a.len() - n, x.len() as int));
        assert(newest(y, n) =~= newest(x, n));
    }
}

/// However many diagnostics are recorded, the runtime retains exactly the
/// newest [`MAX_RETAINED_DIAGNOSTICS`] of everything recorded, oldest first,
/// or all of them while there are fewer.
pub proof fn law_history_keeps_the_newest_diagnostics(log: Seq<DiagnosticView>, ds: Seq<DiagnosticView>)
    requires
        log.len() <= MAX_RETAINED_DIAGNOSTICS,
    ensures
        recorded_in_turn(log, ds) == newest(log + ds, MAX_RETAINED_DIAGNOSTICS as nat),
    decreases ds.len(),
{
    let m = MAX_RETAINED_DIAGNOSTICS as nat;
    if ds.len() == 0 {
        assert(log + ds =~= log);
    } else {
        let d = ds[0];
        let next = retained(log, d);
        assert(next == newest(log.push(d), m)) by {
            if log.len() >= m {
                assert(log.drop_first().push(d) =~= log.push(d).subrange(
                    log.push(d).len() - m,
                    log.push(d).len() as int,
                ));
            }
        }
        law_history_keeps_the_newest_diagnostics(next, ds.drop_first());
        lemma_newest_absorbs(log.push(d), ds.drop_first(), m);
        assert(log.push(d) + ds.drop_first() =~= log + ds);
    }
}

proof fn lemma_position_in_cycle(cycle: Seq<WidgetId>, i: int)
    requires
        cycle.no_duplicates(),
        0 <= i < cycle.len(),
    ensures
        cycle.index_of_first(cycle[i]) == Some(i),
{
    cycle.index_of_first_ensures(cycle[i]);
    let j = cycle.index_of_first(cycle[i])->0;
    assert(j == i) by {
        if j != i {
            assert(cycle[j] == cycle[i]);
        }
    }
}

/// Tab moves focus to the next node of the focus cycle and Shift+Tab to the
/// previous one, wrapping around at either end; focus outside the cycle moves
/// to its first node, and an empty cycle offers no target. Shift+Tab undoes
/// Tab and Tab undoes Shift+Tab.
pub proof fn law_tab_steps_to_the_neighbouring_node(cycle: Seq<WidgetId>, i: int, outside: Option<WidgetId>)
    requires
        cycle.no_duplicates(),
    ensures
        cycle.len() == 0 ==> tab_target(cycle, outside, false) is None && tab_target(cycle, outside, true)
            is None,
        cycle.len() > 0 && (outside matches Some(o) ==> !cycle.contains(o)) ==> tab_target(
            cycle,
            outside,
            false,
        ) == Some(cycle[0]) && tab_target(cycle, outside, true) == Some(cycle[0]),
        0 <= i < cycle.len() - 1 ==> tab_target(cycle, Some(cycle[i]), false) == Some(cycle[i + 1]),
        0 <= i < cycle.len() && i == cycle.len() - 1 ==> tab_target(cycle, Some(cycle[i]), false)
            == Some(cycle[0]),
        0 < i < cycle.len() ==> tab_target(cycle, Some(cycle[i]), true) == Some(cycle[i - 1]),
        0 == i < cycle.len() ==> tab_target(cycle, Some(cycle[i]), true) == Some(
            cycle[cycle.len() - 1],
        ),
        0 <= i < cycle.len() ==> tab_target(cycle, tab_target(cycle, Some(cycle[i]), false), true)
            == Some(cycle[i]),
        0 <= i < cycle.len() ==> tab_target(cycle, tab_target(cycle, Some(cycle[i]), true), false)
            == Some(cycle[i]),
{
    if let Some(o) = outside {
        cycle.index_of_first_ensures(o);
    }
    if 0 <= i < cycle.len() {
        let n = cycle.len() as int;
        lemma_position_in_cycle(cycle, i);
        let next = if i + 1 < n { i + 1 } else { 0 };
        let prev = if i > 0 { i - 1 } else { n - 1 };
        assert((i + 1) % n == next) by {
            if i + 1 < n {
                vstd::arithmetic::div_mod::lemma_small_mod((i + 1) as nat, n as nat);
            } else {
                vstd::arithmetic::div_mod::lemma_mod_self_0(n);
            }
        }
        lemma_position_in_cycle(cycle, next);
        lemma_position_in_cycle(cycle, prev);
        assert((prev + 1) % n == i) by {
            if prev + 1 < n {
                vstd::arithmetic::div_mod::lemma_small_mod((prev + 1) as nat, n as nat);
            } else {
                vstd::arithmetic::div_mod::lemma_mod_self_0(n);
            }
        }
    }
}

} // verus!
