//! What a dock area shows of a workspace tree.
//!
//! A dock area binds each of its direct children to one workspace item and
//! projects the docked tree onto them. The projection decided here is the
//! structure of what is shown: every split with the panel its splitter
//! resizes, every tab strip with its selected tab, and for every item whose
//! content is visible, the direct child it is bound to (or that no child is).
//! Inactive tabs get no content. Placing the regions in logical pixels is left
//! to the widget that walks this structure.

use vstd::prelude::*;

use crate::dock_ids::{
    document_text_opt, document_texts, panel_text_opt, panel_texts, DockAxis, DocumentId, PanelId,
};
use crate::dock_tree::{first_panel, leading_panel, LayoutNode, NodeView};
use crate::ui::{dock_item_key, dock_item_keys, DockItem};
use crate::workspace::{window_ids, LayoutView};
use crate::workspace_laws::{node_documents, node_panels, node_well_formed, well_formed};

verus! {

/// Where the content of a visible item goes.
#[derive(Clone, Copy, Debug, PartialEq, Eq, Structural)]
pub enum Placement {
    /// The direct child at this index is bound to the item.
    Child(usize),
    /// No direct child is bound to the item.
    Missing,
}

/// One tab of a projected tab strip.
#[derive(Debug)]
pub struct ProjectedTab {
    /// The item the tab stands for.
    pub item: DockItem,
    /// Whether the tab is the selected one.
    pub active: bool,
}

/// The projected structure of a docked tree.
#[derive(Debug)]
pub enum DockRegion {
    /// Two regions separated by a splitter.
    Split {
        /// Split orientation.
        axis: DockAxis,
        /// binary32 encoding of the first region's proportion.
        ratio: u32,
        /// The panel whose split the splitter resizes, if the split holds any.
        resize_panel: Option<PanelId>,
        /// First region.
        first: Box<DockRegion>,
        /// Second region.
        second: Box<DockRegion>,
    },
    /// A tab strip and the content of its selected tab.
    Tabs {
        /// Tabs in order; empty when the group has no items.
        tabs: Vec<ProjectedTab>,
        /// Where the selected item's content goes; `None` when nothing is
        /// selected or the group has no items.
        content: Option<Placement>,
    },
    /// A single visible item.
    Item(Placement),
    /// Nothing is shown.
    Empty,
}

/// The model of a [`DockRegion`]: items are their keys.
pub enum RegionView {
    Split {
        axis: DockAxis,
        ratio: u32,
        resize_panel: Option<Seq<char>>,
        first: Box<RegionView>,
        second: Box<RegionView>,
    },
    Tabs { tabs: Seq<((bool, Seq<char>), bool)>, content: Option<Placement> },
    Item(Placement),
    Empty,
}

/// The model of a tab: its item's key and whether it is selected.
pub open spec fn tab_view(tab: ProjectedTab) -> ((bool, Seq<char>), bool) {
    (dock_item_key(tab.item), tab.active)
}

impl DockRegion {
    /// The model of this region.
    pub open spec fn shape(&self) -> RegionView
        decreases self,
    {
        match self {
            DockRegion::Split { axis, ratio, resize_panel, first, second } => RegionView::Split {
                axis: *axis,
                ratio: *ratio,
                resize_panel: panel_text_opt(*resize_panel),
                first: Box::new(first.shape()),
                second: Box::new(second.shape()),
            },
            DockRegion::Tabs { tabs, content } => RegionView::Tabs {
                tabs: tabs@.map_values(|t: ProjectedTab| tab_view(t)),
                content: *content,
            },
            DockRegion::Item(p) => RegionView::Item(*p),
            DockRegion::Empty => RegionView::Empty,
        }
    }
}

impl View for DockRegion {
    type V = RegionView;

    open spec fn view(&self) -> RegionView {
        self.shape()
    }
}

/// The first index at or after `start` whose key is `key`.
pub open spec fn first_index_from(keys: Seq<(bool, Seq<char>)>, key: (bool, Seq<char>), start: int) -> Option<int>
    decreases keys.len() - start,
{
    if 0 <= start < keys.len() {
        if keys[start] == key {
            Some(start)
        } else {
            first_index_from(keys, key, start + 1)
        }
    } else {
        None
    }
}

/// Where the content of the item with `key` goes, for the bindings `keys`:
/// the first child bound to it, or nowhere.
pub open spec fn placement_of(keys: Seq<(bool, Seq<char>)>, key: (bool, Seq<char>)) -> Placement {
    match first_index_from(keys, key, 0) {
        Some(i) => Placement::Child(i as usize),
        None => Placement::Missing,
    }
}

/// What [`first_index_from`] finds: the earliest matching index at or after
/// `start`, or `None` when nothing from `start` on matches.
proof fn lemma_first_index_from(keys: Seq<(bool, Seq<char>)>, key: (bool, Seq<char>), start: int)
    requires
        0 <= start,
    ensures
        match first_index_from(keys, key, start) {
            Some(i) => start <= i < keys.len() && keys[i] == key && forall|j: int|
                start <= j < i ==> keys[j] != key,
            None => forall|j: int| start <= j < keys.len() ==> keys[j] != key,
        },
    decreases keys.len() - start,
{
    if start < keys.len() && keys[start] != key {
        lemma_first_index_from(keys, key, start + 1);
    }
}

/// The content of an item goes to the first direct child bound to it, and an
/// item is missing exactly when no direct child is bound to it.
pub proof fn law_content_goes_to_the_first_binding(keys: Seq<(bool, Seq<char>)>, key: (bool, Seq<char>))
    requires
        keys.len() <= usize::MAX,
    ensures
        placement_of(keys, key) is Missing <==> !keys.contains(key),
        placement_of(keys, key) matches Placement::Child(i) ==> i < keys.len() && keys[i as int]
            == key && forall|j: int| 0 <= j < i ==> keys[j] != key,
{
    lemma_first_index_from(keys, key, 0);
    if keys.contains(key) {
        let k = choose|k: int| 0 <= k < keys.len() && keys[k] == key;
        assert(keys[k] == key);
    }
}

/// Whether the item with `key` is shown by a dock area projecting `node`: it
/// is a docked panel, or the selected item of a non-empty tab group or
/// document area.
pub open spec fn is_shown(node: NodeView, key: (bool, Seq<char>)) -> bool
    decreases node,
{
    match node {
        NodeView::Split { first, second, .. } => is_shown(*first, key) || is_shown(*second, key),
        NodeView::Tabs { items, active } => items.len() > 0 && key_opt(false, active) == Some(key),
        NodeView::Panel { id } => key == (false, id),
        NodeView::Documents { items, active, .. } => items.len() > 0 && key_opt(true, active)
            == Some(key),
        NodeView::Empty => false,
    }
}

/// Whether `region` gives content to direct child `i`.
pub open spec fn places_child(region: RegionView, i: usize) -> bool
    decreases region,
{
    match region {
        RegionView::Split { first, second, .. } => places_child(*first, i) || places_child(
            *second,
            i,
        ),
        RegionView::Tabs { content, .. } => content == Some(Placement::Child(i)),
        RegionView::Item(p) => p == Placement::Child(i),
        RegionView::Empty => false,
    }
}

/// A dock area gives content to a direct child exactly when the child is the
/// first one bound to an item that the tree shows: a docked panel, or the
/// selected item of its group. Inactive tabs and unbound children get none.
pub proof fn law_children_show_exactly_the_shown_items(
    node: NodeView,
    bindings: Seq<(bool, Seq<char>)>,
    i: usize,
)
    requires
        bindings.len() <= usize::MAX,
    ensures
        places_child(projected(node, bindings), i) <==> (i < bindings.len() && is_shown(
            node,
            bindings[i as int],
        ) && placement_of(bindings, bindings[i as int]) == Placement::Child(i)),
    decreases node,
{
    if i < bindings.len() {
        law_content_goes_to_the_first_binding(bindings, bindings[i as int]);
    }
    match node {
        NodeView::Split { first, second, .. } => {
            law_children_show_exactly_the_shown_items(*first, bindings, i);
            law_children_show_exactly_the_shown_items(*second, bindings, i);
        },
        NodeView::Tabs { items, active } => {
            if places_child(projected(node, bindings), i) {
                law_content_goes_to_the_first_binding(bindings, (false, active->0));
            }
        },
        NodeView::Panel { id } => {
            law_content_goes_to_the_first_binding(bindings, (false, id));
        },
        NodeView::Documents { items, active, .. } => {
            if places_child(projected(node, bindings), i) {
                law_content_goes_to_the_first_binding(bindings, (true, active->0));
            }
        },
        NodeView::Empty => {},
    }
}

/// A shown item of a tree whose selections name members of their groups is
/// docked in the tree.
proof fn lemma_shown_items_are_docked(node: NodeView, key: (bool, Seq<char>))
    requires
        node_well_formed(node),
        is_shown(node, key),
    ensures
        !key.0 ==> node_panels(node).contains(key.1),
        key.0 ==> node_documents(node).contains(key.1),
    decreases node,
{
    match node {
        NodeView::Split { first, second, .. } => {
            if is_shown(*first, key) {
                lemma_shown_items_are_docked(*first, key);
                if !key.0 {
                    let k = choose|k: int| 0 <= k < node_panels(*first).len() && node_panels(*first)[k] == key.1;
                    assert((node_panels(*first) + node_panels(*second))[k] == key.1);
                } else {
                    let k = choose|k: int| 0 <= k < node_documents(*first).len() && node_documents(*first)[k] == key.1;
                    assert((node_documents(*first) + node_documents(*second))[k] == key.1);
                }
            } else {
                lemma_shown_items_are_docked(*second, key);
                if !key.0 {
                    let k = choose|k: int| 0 <= k < node_panels(*second).len() && node_panels(*second)[k] == key.1;
                    assert((node_panels(*first) + node_panels(*second))[node_panels(*first).len() + k] == key.1);
                } else {
                    let k = choose|k: int| 0 <= k < node_documents(*second).len() && node_documents(*second)[k] == key.1;
                    assert((node_documents(*first) + node_documents(*second))[node_documents(*first).len() + k] == key.1);
                }
            }
        },
        NodeView::Panel { id } => {
            assert(seq![id][0] == id);
        },
        _ => {},
    }
}

/// An element of a sequence without duplicates occurs in none of the
/// sequences appended after the one that holds it.
proof fn lemma_unique_in_first_part(
    a: Seq<Seq<char>>,
    b: Seq<Seq<char>>,
    c: Seq<Seq<char>>,
    x: Seq<char>,
)
    requires
        (a + b + c).no_duplicates(),
        a.contains(x),
    ensures
        !b.contains(x),
        !c.contains(x),
{
    let k = choose|k: int| 0 <= k < a.len() && a[k] == x;
    assert((a + b + c)[k] == x);
    if b.contains(x) {
        let j = choose|j: int| 0 <= j < b.len() && b[j] == x;
        assert((a + b + c)[a.len() + j] == x);
    }
    if c.contains(x) {
        let j = choose|j: int| 0 <= j < c.len() && c[j] == x;
        assert((a + b + c)[a.len() + b.len() + j] == x);
    }
}

/// In a well-formed workspace, a dock area gives no content to a direct child
/// bound to a floating or hidden panel or to a free-form document: such items
/// stay retained, but only docked items are shown.
pub proof fn law_floating_and_hidden_items_get_no_content(
    layout: LayoutView,
    bindings: Seq<(bool, Seq<char>)>,
    i: usize,
)
    requires
        well_formed(layout),
        bindings.len() <= usize::MAX,
        places_child(projected(layout.root, bindings), i),
    ensures
        i < bindings.len(),
        !bindings[i as int].0 ==> node_panels(layout.root).contains(bindings[i as int].1)
            && !window_ids(layout.floating).contains(bindings[i as int].1)
            && !layout.hidden.contains(bindings[i as int].1),
        bindings[i as int].0 ==> node_documents(layout.root).contains(bindings[i as int].1)
            && !window_ids(layout.freeform).contains(bindings[i as int].1),
{
    law_children_show_exactly_the_shown_items(layout.root, bindings, i);
    let key = bindings[i as int];
    lemma_shown_items_are_docked(layout.root, key);
    if !key.0 {
        lemma_unique_in_first_part(
            node_panels(layout.root),
            window_ids(layout.floating),
            layout.hidden,
            key.1,
        );
    } else {
        lemma_unique_in_first_part(
            node_documents(layout.root),
            window_ids(layout.freeform),
            Seq::empty(),
            key.1,
        );
        assert(node_documents(layout.root) + window_ids(layout.freeform) + Seq::<Seq<char>>::empty()
            =~= node_documents(layout.root) + window_ids(layout.freeform));
    }
}

/// A tab strip of items with the given keys, `selected` being the key of the
/// selected item.
pub open spec fn tab_strip(
    keys: Seq<(bool, Seq<char>)>,
    bindings: Seq<(bool, Seq<char>)>,
    selected: Option<(bool, Seq<char>)>,
) -> RegionView {
    RegionView::Tabs {
        tabs: keys.map_values(|k: (bool, Seq<char>)| (k, selected == Some(k))),
        content: if keys.len() > 0 && selected is Some {
            Some(placement_of(bindings, selected->0))
        } else {
            None
        },
    }
}

/// The keys of panel texts.
pub open spec fn panel_keys(texts: Seq<Seq<char>>) -> Seq<(bool, Seq<char>)> {
    texts.map_values(|t: Seq<char>| (false, t))
}

/// The keys of document texts.
pub open spec fn document_keys(texts: Seq<Seq<char>>) -> Seq<(bool, Seq<char>)> {
    texts.map_values(|t: Seq<char>| (true, t))
}

/// The key of an optional text.
pub open spec fn key_opt(document: bool, text: Option<Seq<char>>) -> Option<(bool, Seq<char>)> {
    match text {
        Some(t) => Some((document, t)),
        None => None,
    }
}

/// What a dock area bound to `bindings` shows of the tree `node`.
pub open spec fn projected(node: NodeView, bindings: Seq<(bool, Seq<char>)>) -> RegionView
    decreases node,
{
    match node {
        NodeView::Split { axis, ratio, first, second } => RegionView::Split {
            axis,
            ratio,
            resize_panel: leading_panel(node),
            first: Box::new(projected(*first, bindings)),
            second: Box::new(projected(*second, bindings)),
        },
        NodeView::Tabs { items, active } => tab_strip(
            panel_keys(items),
            bindings,
            key_opt(false, active),
        ),
        NodeView::Panel { id } => RegionView::Item(placement_of(bindings, (false, id))),
        NodeView::Documents { items, active, .. } => tab_strip(
            document_keys(items),
            bindings,
            key_opt(true, active),
        ),
        NodeView::Empty => RegionView::Empty,
    }
}

/// Returns where the content of `item` goes: the first direct child bound to
/// it, or nowhere.
pub fn placement_in(bindings: &[DockItem], item: &DockItem) -> (r: Placement)
    ensures
        r == placement_of(dock_item_keys(bindings@), dock_item_key(*item)),
{
    let ghost keys = dock_item_keys(bindings@);
    let mut i: usize = 0;
    while i < bindings.len()
        invariant
            i <= bindings.len(),
            keys == dock_item_keys(bindings@),
            first_index_from(keys, dock_item_key(*item), 0) == first_index_from(
                keys,
                dock_item_key(*item),
                i as int,
            ),
        decreases bindings.len() - i,
    {
        if bindings[i].same_as(item) {
            return Placement::Child(i);
        }
        i = i + 1;
    }
    Placement::Missing
}

/// Projects a tab group of panels.
fn panel_strip(items: &Vec<PanelId>, active: &Option<PanelId>, bindings: &[DockItem]) -> (r:
    DockRegion)
    ensures
        r@ == tab_strip(
            panel_keys(panel_texts(items@)),
            dock_item_keys(bindings@),
            key_opt(false, panel_text_opt(*active)),
        ),
{
    let ghost keys = panel_keys(panel_texts(items@));
    let ghost selected = key_opt(false, panel_text_opt(*active));
    let mut tabs: Vec<ProjectedTab> = Vec::new();
    let mut i: usize = 0;
    while i < items.len()
        invariant
            i <= items.len(),
            keys == panel_keys(panel_texts(items@)),
            selected == key_opt(false, panel_text_opt(*active)),
            tabs@.len() == i,
            forall|j: int|
                0 <= j < i ==> tab_view(#[trigger] tabs@[j]) == (keys[j], selected == Some(keys[j])),
        decreases items.len() - i,
    {
        let is_active = match active {
            Some(a) => a.same_as(&items[i]),
            None => false,
        };
        tabs.push(ProjectedTab { item: DockItem::Panel(items[i].clone()), active: is_active });
        i = i + 1;
    }
    let content = if items.len() > 0 {
        match active {
            Some(a) => Some(placement_in(bindings, &DockItem::Panel(a.clone()))),
            None => None,
        }
    } else {
        None
    };
    let r = DockRegion::Tabs { tabs, content };
    assert(r@ == tab_strip(keys, dock_item_keys(bindings@), selected)) by {
        assert(tabs@.map_values(|t: ProjectedTab| tab_view(t)) =~= keys.map_values(
            |k: (bool, Seq<char>)| (k, selected == Some(k)),
        ));
    }
    r
}

/// Projects a document area.
fn document_strip(
    items: &Vec<DocumentId>,
    active: &Option<DocumentId>,
    bindings: &[DockItem],
) -> (r: DockRegion)
    ensures
        r@ == tab_strip(
            document_keys(document_texts(items@)),
            dock_item_keys(bindings@),
            key_opt(true, document_text_opt(*active)),
        ),
{
    let ghost keys = document_keys(document_texts(items@));
    let ghost selected = key_opt(true, document_text_opt(*active));
    let mut tabs: Vec<ProjectedTab> = Vec::new();
    let mut i: usize = 0;
    while i < items.len()
        invariant
            i <= items.len(),
            keys == document_keys(document_texts(items@)),
            selected == key_opt(true, document_text_opt(*active)),
            tabs@.len() == i,
            forall|j: int|
                0 <= j < i ==> tab_view(#[trigger] tabs@[j]) == (keys[j], selected == Some(keys[j])),
        decreases items.len() - i,
    {
        let is_active = match active {
            Some(a) => a.same_as(&items[i]),
            None => false,
        };
        tabs.push(ProjectedTab { item: DockItem::Document(items[i].clone()), active: is_active });
        i = i + 1;
    }
    let content = if items.len() > 0 {
        match active {
            Some(a) => Some(placement_in(bindings, &DockItem::Document(a.clone()))),
            None => None,
        }
    } else {
        None
    };
    let r = DockRegion::Tabs { tabs, content };
    assert(r@ == tab_strip(keys, dock_item_keys(bindings@), selected)) by {
        assert(tabs@.map_values(|t: ProjectedTab| tab_view(t)) =~= keys.map_values(
            |k: (bool, Seq<char>)| (k, selected == Some(k)),
        ));
    }
    r
}

/// Projects the docked tree `node` onto a dock area whose direct children are
/// bound, in order, to `bindings`.
pub fn project_dock(node: &LayoutNode, bindings: &[DockItem]) -> (r: DockRegion)
    ensures
        r@ == projected(node@, dock_item_keys(bindings@)),
    decreases node,
{
    match node {
        LayoutNode::Split { axis, ratio, first, second } => {
            let resize_panel = first_panel(node);
            let f = project_dock(first, bindings);
            let s = project_dock(second, bindings);
            DockRegion::Split {
                axis: *axis,
                ratio: *ratio,
                resize_panel,
                first: Box::new(f),
                second: Box::new(s),
            }
        },
        LayoutNode::Tabs { items, active } => panel_strip(items, active, bindings),
        LayoutNode::Panel { id } => DockRegion::Item(
            placement_in(bindings, &DockItem::Panel(id.clone())),
        ),
        LayoutNode::Documents { items, active, .. } => document_strip(items, active, bindings),
        LayoutNode::Empty => DockRegion::Empty,
    }
}

} // verus!
